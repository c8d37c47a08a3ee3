//! Decisions of the byte-stream view over a connection: which complete
//! messages carry application bytes (text as its UTF-8 bytes, binary as it
//! is; Ping and Pong are skipped, Close ends the stream), and how the bytes
//! of one message are handed out in pieces no larger than the reader asks
//! for. The transport loop around them does I/O and is not part of this
//! library.

use vstd::prelude::*;
use vstd::utf8::*;
use crate::ws_message::WsMessage;

verus! {

/// What a complete message gives a byte-stream reader.
#[derive(Debug, PartialEq, Eq)]
pub enum StreamDelivery {
    /// Application bytes to hand out.
    Bytes(Vec<u8>),
    /// A control message the reader does not see; read on.
    Skip,
    /// The peer closed the connection; the stream ends.
    Closed,
}

/// Classifies a complete message for the byte stream.
pub fn stream_delivery(msg: WsMessage) -> (d: StreamDelivery)
    ensures
        match msg {
            WsMessage::Text(t) => d matches StreamDelivery::Bytes(b) && b@ == encode_utf8(t@),
            WsMessage::Binary(v) => d matches StreamDelivery::Bytes(b) && b@ == v@,
            WsMessage::Ping(_) => d is Skip,
            WsMessage::Pong(_) => d is Skip,
            WsMessage::Close { .. } => d is Closed,
        },
{
    match msg {
        WsMessage::Text(t) => StreamDelivery::Bytes(vstd::slice::slice_to_vec(t.as_str().as_bytes())),
        WsMessage::Binary(v) => StreamDelivery::Bytes(v),
        WsMessage::Ping(_) => StreamDelivery::Skip,
        WsMessage::Pong(_) => StreamDelivery::Skip,
        WsMessage::Close { .. } => StreamDelivery::Closed,
    }
}

/// The application bytes of the current message that have not been read.
pub struct AppBuffer {
    data: Vec<u8>,
    pos: usize,
}

impl AppBuffer {
    #[verifier::type_invariant]
    spec fn inv(self) -> bool {
        self.pos <= self.data@.len()
    }

    /// The bytes still to be read, in order.
    pub closed spec fn remaining(&self) -> Seq<u8> {
        self.data@.subrange(self.pos as int, self.data@.len() as int)
    }

    /// An empty buffer.
    pub fn new() -> (b: AppBuffer)
        ensures
            b.remaining() == Seq::<u8>::empty(),
    {
        let b = AppBuffer { data: Vec::new(), pos: 0 };
        assert(b.remaining() =~= Seq::<u8>::empty());
        b
    }

    /// Whether every byte has been read.
    pub fn is_drained(&self) -> (r: bool)
        ensures
            r == (self.remaining().len() == 0),
    {
        proof {
            use_type_invariant(self);
        }
        self.pos >= self.data.len()
    }

    /// Starts handing out the bytes of a new message.
    pub fn refill(&mut self, bytes: Vec<u8>)
        ensures
            final(self).remaining() == bytes@,
    {
        *self = AppBuffer { data: bytes, pos: 0 };
        assert(self.data@.subrange(0, self.data@.len() as int) =~= self.data@);
    }

    /// Hands out the next bytes, as many as remain but at most `max`.
    pub fn take(&mut self, max: usize) -> (out: Vec<u8>)
        ensures
            out@.len() == if old(self).remaining().len() < max {
                old(self).remaining().len() as int
            } else {
                max as int
            },
            out@ == old(self).remaining().take(out@.len() as int),
            final(self).remaining() == old(self).remaining().skip(out@.len() as int),
    {
        proof {
            use_type_invariant(&*self);
        }
        let avail = self.data.len() - self.pos;
        let n = if avail < max { avail } else { max };
        let mut out: Vec<u8> = Vec::new();
        let mut i: usize = 0;
        while i < n
            invariant
                self.pos + n <= self.data.len(),
                i <= n,
                out@ == self.data@.subrange(self.pos as int, self.pos + i),
            decreases n - i,
        {
            out.push(self.data[self.pos + i]);
            i = i + 1;
            proof {
                assert(out@ =~= self.data@.subrange(self.pos as int, self.pos + i));
            }
        }
        let ghost before = self.remaining();
        self.pos = self.pos + n;
        proof {
            assert(out@ =~= before.take(n as int));
            assert(self.remaining() =~= before.skip(n as int));
        }
        out
    }
}

} // verus!
