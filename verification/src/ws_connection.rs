//! Shared WebSocket connection state machine (RFC 6455 §5–§7).
//!
//! [`CommonState`] owns the receive and transmit byte buffers, fragment
//! reassembly, automatic control-frame handling, and the OPEN / CLOSING /
//! CLOSED lifecycle. Client and server connections wrap it and add the
//! HTTP opening handshake.

use vstd::prelude::*;
use vstd::utf8::*;
use std::collections::VecDeque;
use crate::outside::string_from_utf8;
use crate::ws_error::{WsError, WsResult, same_error, spec_close_code, invalid_state_with};
use crate::ws_frame::{
    WsFrameHeader, fresh_header, be_bytes, frame_payload, header_matches, declared_len,
    FrameOutcome, WsFrame, decode_close_payload, encode_frame, frame_outcome, random_mask_key, spec_header_len,
    try_parse_frame, close_decode, close_payload, push_all, sendable_frame, lemma_frame_round_trip,
    close_payload_error_text, close_decode_error_text, frame_error_text, frame_len, lemma_complete_frame_alone,
    lemma_complete_frame_extends, lemma_complete_frame_prefix, lemma_need_more_prefix,
};
use crate::ws_ids::{
    DEFAULT_MAX_FRAME_SIZE, DEFAULT_MAX_MESSAGE_SIZE, Role, WsCloseCode, WsOpcode, is_protocol_error, opcode_of,
    protocol_error_with,
};
use crate::ws_message::WsMessage;
use crate::ws_handshake::opt_text;
use crate::ws_utf8::{
    Utf8Validator, validate_utf8, consistent, lemma_feed_extends, lemma_finish_iff_valid, lemma_valid_message_feeds,
};

verus! {

broadcast use vstd::seq::group_seq_axioms;

/// High-level connection lifecycle (RFC 6455 §7.1).
#[derive(Debug, Clone, Copy, PartialEq, Eq, Structural)]
pub enum ConnectionState {
    /// HTTP opening handshake in progress.
    Connecting,
    /// Handshake complete; data frames may be exchanged.
    Open,
    /// Close frame sent and/or received; waiting for the peer.
    Closing,
    /// Connection fully closed (cleanly or abnormally).
    Closed,
}

/// Snapshot of buffer and readiness state after processing.
#[derive(Debug, Clone, Copy, PartialEq, Eq, Structural)]
pub struct IoState {
    /// Bytes still buffered on the inbound side awaiting a complete frame.
    pub pending_rx: usize,
    /// Bytes queued for the transport.
    pub pending_tx: usize,
    /// Complete messages waiting for the application.
    pub pending_messages: usize,
}

/// Tunables for framing and reassembly limits.
#[derive(Debug, Clone)]
pub struct ConnectionConfig {
    /// Maximum payload size of a single frame.
    pub max_frame_size: usize,
    /// Maximum size of a reassembled data message.
    pub max_message_size: usize,
    /// When true, automatically reply to Ping with a matching Pong while the
    /// connection is open.
    pub auto_pong: bool,
    /// When true, automatically echo a Close frame when the peer closes first.
    pub auto_close_reply: bool,
}

impl Default for ConnectionConfig {
    fn default() -> (c: ConnectionConfig)
        ensures
            c.max_frame_size == DEFAULT_MAX_FRAME_SIZE,
            c.max_message_size == DEFAULT_MAX_MESSAGE_SIZE,
            c.auto_pong,
            c.auto_close_reply,
    {
        ConnectionConfig {
            max_frame_size: DEFAULT_MAX_FRAME_SIZE,
            max_message_size: DEFAULT_MAX_MESSAGE_SIZE,
            auto_pong: true,
            auto_close_reply: true,
        }
    }
}

/// Fragment reassembly buffer for a multi-frame data message.
#[derive(Debug)]
pub struct FragmentBuf {
    /// Opcode of the initial fragment (`Text` or `Binary`).
    pub opcode: Option<WsOpcode>,
    /// Accumulated payload bytes.
    pub data: Vec<u8>,
    /// Streaming UTF-8 validator for text fragments.
    pub utf8: Utf8Validator,
}

impl FragmentBuf {
    fn clear(&mut self)
        ensures
            final(self).opcode is None,
            final(self).data@ == Seq::<u8>::empty(),
            final(self).utf8.wf(),
            final(self).utf8@ == Seq::<u8>::empty(),
    {
        self.opcode = None;
        self.data.clear();
        self.utf8.reset();
    }

    fn is_active(&self) -> (r: bool)
        ensures
            r == self.opcode is Some,
    {
        self.opcode.is_some()
    }
}

/// Bidirectional framing state shared by client and server.
pub struct CommonState {
    /// Local role (determines masking rules).
    pub role: Role,
    /// Lifecycle state.
    pub state: ConnectionState,
    /// Framing configuration.
    pub config: ConnectionConfig,
    /// Inbound transport buffer.
    pub rx_buf: Vec<u8>,
    /// Outbound transport buffer.
    pub tx_buf: Vec<u8>,
    /// Complete messages ready for the application.
    pub messages: VecDeque<WsMessage>,
    /// Active fragmented data message, if any.
    pub fragment: FragmentBuf,
    /// True after a Close frame has been sent locally.
    pub local_close_sent: bool,
    /// True after a Close frame has been received from the peer.
    pub peer_close_received: bool,
    /// Close code from the first Close frame received.
    pub peer_close_code: Option<WsCloseCode>,
    /// Close reason from the first Close frame received.
    pub peer_close_reason: Option<String>,
    /// Negotiated subprotocol after the handshake.
    pub protocol: Option<String>,
    /// Sticky fatal error (surfaced after a fail-close is queued).
    pub error: Option<WsError>,
}

/// `new_tx` is `old_tx` followed by the encoding of `frame`, masked with
/// some 4-byte key for clients and unmasked for servers.
pub open spec fn frame_sent(old_tx: Seq<u8>, new_tx: Seq<u8>, h: WsFrameHeader, payload: Seq<u8>, role: Role) -> bool {
    if role == Role::Server {
        new_tx == old_tx + encode_frame(h, payload, None)
    } else {
        exists|k: Seq<u8>| k.len() == 4 && new_tx == #[trigger] (old_tx + encode_frame(h, payload, Some(k)))
    }
}

/// `c` is the shared state of a connection that has just been created for
/// `role` with `config` and whose transmit buffer holds `tx`.
pub open spec fn fresh_common(c: CommonState, role: Role, config: ConnectionConfig, tx: Seq<u8>) -> bool {
    &&& c.wf()
    &&& c.role == role
    &&& c.config == config
    &&& c.state == ConnectionState::Connecting
    &&& c.rx() == Seq::<u8>::empty()
    &&& c.tx() == tx
    &&& c.queued() == Seq::<WsMessage>::empty()
    &&& !c.fragmenting()
    &&& !c.local_close_sent
    &&& !c.peer_close_received
    &&& c.peer_close_code is None
    &&& c.peer_close_reason is None
    &&& c.protocol is None
    &&& c.error is None
}

/// `b` is `a` with the opening handshake completed: `rest` left in the
/// receive buffer, `tx` in the transmit buffer, the state Open and
/// `protocol` negotiated.
pub open spec fn opened(a: CommonState, b: CommonState, rest: Seq<u8>, tx: Seq<u8>, protocol: Option<Seq<char>>) -> bool {
    &&& b.wf()
    &&& b.role == a.role
    &&& b.config == a.config
    &&& b.state == ConnectionState::Open
    &&& opt_text(b.protocol) == protocol
    &&& b.rx() == rest
    &&& b.tx() == tx
    &&& b.queued() == a.queued()
    &&& b.fragment == a.fragment
    &&& b.local_close_sent == a.local_close_sent
    &&& b.peer_close_received == a.peer_close_received
    &&& b.peer_close_code == a.peer_close_code
    &&& b.peer_close_reason == a.peer_close_reason
    &&& b.error == a.error
}

/// What the application sees of a queued message.
pub enum MessageView {
    /// A text message's characters.
    Text(Seq<char>),
    /// A binary message's bytes.
    Binary(Seq<u8>),
    /// A Ping's payload.
    Ping(Seq<u8>),
    /// A Pong's payload.
    Pong(Seq<u8>),
    /// A Close's code and reason.
    Close(WsCloseCode, Seq<char>),
}

/// The view of a message.
pub open spec fn message_view(m: WsMessage) -> MessageView {
    match m {
        WsMessage::Text(t) => MessageView::Text(t@),
        WsMessage::Binary(b) => MessageView::Binary(b@),
        WsMessage::Ping(p) => MessageView::Ping(p@),
        WsMessage::Pong(p) => MessageView::Pong(p@),
        WsMessage::Close { code, reason } => MessageView::Close(code, reason@),
    }
}

/// The message a complete data payload `p` with opcode `op` delivers.
pub open spec fn data_view(op: WsOpcode, p: Seq<u8>) -> MessageView {
    if op == WsOpcode::Text {
        MessageView::Text(decode_utf8(p))
    } else {
        MessageView::Binary(p)
    }
}

/// Nothing but the message queue and the reassembly state differs, and
/// the transmit buffer may only differ where stated separately.
pub open spec fn same_link(a: CommonState, b: CommonState) -> bool {
    &&& b.same_flags(&a)
    &&& b.tx() == a.tx()
}

/// Nothing differs but the receive buffer.
pub open spec fn untouched(a: CommonState, b: CommonState) -> bool {
    &&& same_link(a, b)
    &&& b.queued() == a.queued()
    &&& b.fragment == a.fragment
}

/// Why data frames cannot be sent in `state` (or, when open, after a local
/// Close).
pub open spec fn data_refusal_text(state: ConnectionState) -> Seq<char> {
    if state != ConnectionState::Open {
        "connection is not open for data frames"@
    } else {
        "cannot send data after Close"@
    }
}

/// `a + b`, or `usize::MAX` when the sum does not fit.
pub open spec fn capped_sum(a: int, b: int) -> int {
    if a + b <= usize::MAX { a + b } else { usize::MAX as int }
}

/// `r` is a message-too-big error for `size` against `limit`.
pub open spec fn too_big(r: WsResult<()>, size: int, limit: usize) -> bool {
    r matches Err(WsError::MessageTooBig { size: s, limit: l }) && s == size && l == limit
}

/// A Text or Binary frame (RFC 6455 §5.4, §5.6): refused while a fragmented
/// message is open, dropped once either side sent Close, delivered when
/// final (text must be UTF-8; both must fit `max_message_size`), otherwise
/// opening a fragmented message.
pub open spec fn data_frame_effect(a: CommonState, fin: bool, op: WsOpcode, p: Seq<u8>, b: CommonState, r: WsResult<()>) -> bool {
    let max = a.config.max_message_size;
    if a.fragmenting() {
        (r matches Err(e) && protocol_error_with(e, "new data frame while fragmentation in progress"@)) && untouched(a, b)
    } else if a.peer_close_received || a.local_close_sent {
        r is Ok && untouched(a, b)
    } else if fin {
        &&& same_link(a, b)
        &&& b.fragment == a.fragment
        &&& if p.len() > max {
            too_big(r, p.len() as int, max) && b.queued() == a.queued()
        } else if op == WsOpcode::Text && !valid_utf8(p) {
            r == Err::<(), WsError>(WsError::InvalidUtf8) && b.queued() == a.queued()
        } else {
            r is Ok && b.inbox() == a.inbox().push(data_view(op, p))
        }
    } else {
        &&& same_link(a, b)
        &&& b.queued() == a.queued()
        &&& if p.len() > max {
            too_big(r, p.len() as int, max)
        } else if op == WsOpcode::Binary {
            r is Ok && b.fragment.opcode == Some(op) && b.fragment.data@ == p
        } else {
            &&& (r is Ok || r == Err::<(), WsError>(WsError::InvalidUtf8))
            &&& (exists|t: Seq<u8>| valid_utf8(#[trigger] (p + t))) <==> r is Ok
            &&& r is Ok ==> b.fragment.opcode == Some(op) && b.fragment.data@ == p
        }
    }
}

/// A Continuation frame: refused without an open fragmented message;
/// appended to it (the total must fit `max_message_size`; text bytes are
/// checked as they arrive); the final fragment delivers the message, text
/// only when all of it is UTF-8.
pub open spec fn continuation_effect(a: CommonState, fin: bool, p: Seq<u8>, b: CommonState, r: WsResult<()>) -> bool {
    let max = a.config.max_message_size;
    let d = a.fragment.data@;
    let op = a.fragment.opcode.unwrap();
    &&& same_link(a, b)
    &&& if !a.fragmenting() {
        (r matches Err(e) && protocol_error_with(e, "unexpected continuation frame"@))
            && b.queued() == a.queued() && b.fragment == a.fragment
    } else if d.len() + p.len() > max {
        too_big(r, capped_sum(d.len() as int, p.len() as int), max)
            && b.queued() == a.queued()
    } else if !fin {
        &&& b.queued() == a.queued()
        &&& if op == WsOpcode::Text {
            &&& (r is Ok || r == Err::<(), WsError>(WsError::InvalidUtf8))
            &&& (exists|t: Seq<u8>| valid_utf8(#[trigger] (d + p + t))) <==> r is Ok
            &&& r is Ok ==> b.fragment.opcode == a.fragment.opcode && b.fragment.data@ == d + p
        } else {
            r is Ok && b.fragment.opcode == a.fragment.opcode && b.fragment.data@ == d + p
        }
    } else if op == WsOpcode::Text && !valid_utf8(d + p) {
        r == Err::<(), WsError>(WsError::InvalidUtf8) && b.queued() == a.queued()
    } else {
        r is Ok && !b.fragmenting() && b.inbox() == a.inbox().push(data_view(op, d + p))
    }
}

/// A Ping: answered with a Pong of the same payload while auto-pong is on
/// and the connection is open (no Pong once it is closing or closed), then
/// queued.
pub open spec fn ping_effect(a: CommonState, p: Seq<u8>, b: CommonState, r: WsResult<()>) -> bool {
    &&& b.same_flags(&a)
    &&& b.fragment == a.fragment
    &&& if a.config.auto_pong && !a.local_close_sent && a.state == ConnectionState::Open {
        if p.len() > 125 {
            (r matches Err(e) && protocol_error_with(e, "pong payload exceeds 125 bytes"@))
                && b.tx() == a.tx() && b.queued() == a.queued()
        } else {
            &&& (r is Ok || r == Err::<(), WsError>(WsError::RandomFailed))
            &&& a.role == Role::Server ==> r is Ok
            &&& r is Ok ==> frame_sent(a.tx(), b.tx(), fresh_header(true, WsOpcode::Pong, p.len()), p, a.role)
                && b.inbox() == a.inbox().push(MessageView::Ping(p))
            &&& r is Err ==> b.tx() == a.tx() && b.queued() == a.queued()
        }
    } else {
        r is Ok && b.tx() == a.tx() && b.inbox() == a.inbox().push(MessageView::Ping(p))
    }
}

/// A Close (RFC 6455 §5.5.1): its payload must decode; the first one is
/// recorded and queued; a Close reply (the peer's code when sendable, else
/// Normal) goes out when none was sent and auto-reply is on; the state
/// becomes Closed once a Close was sent, else Closing.
pub open spec fn close_effect(a: CommonState, p: Seq<u8>, b: CommonState, r: WsResult<()>) -> bool {
    &&& b.role == a.role
    &&& b.config == a.config
    &&& b.protocol == a.protocol
    &&& b.error == a.error
    &&& b.fragment == a.fragment
    &&& match close_decode(p) {
        None => (r matches Err(e) && protocol_error_with(e, close_decode_error_text(p))) && untouched(a, b),
        Some(None) => r == Err::<(), WsError>(WsError::InvalidUtf8) && untouched(a, b),
        Some(Some((c, reason))) => {
            &&& b.peer_close_received
            &&& if !a.peer_close_received {
                &&& b.peer_close_code == Some(c)
                &&& opt_text(b.peer_close_reason) == Some(decode_utf8(reason))
                &&& b.inbox() == a.inbox().push(MessageView::Close(c, decode_utf8(reason)))
            } else {
                &&& b.peer_close_code == a.peer_close_code
                &&& b.peer_close_reason == a.peer_close_reason
                &&& b.queued() == a.queued()
            }
            &&& if !a.local_close_sent && a.config.auto_close_reply {
                let reply = if c.spec_is_sendable() { c } else { WsCloseCode::Normal };
                let rp = close_payload(Some(reply), seq![]).unwrap();
                &&& (r is Ok || r == Err::<(), WsError>(WsError::RandomFailed))
                &&& a.role == Role::Server ==> r is Ok
                &&& r is Ok ==> frame_sent(a.tx(), b.tx(), fresh_header(true, WsOpcode::Close, rp.len()), rp, a.role)
                    && b.local_close_sent && b.state == ConnectionState::Closed
                &&& r is Err ==> b.tx() == a.tx() && b.local_close_sent == a.local_close_sent && b.state == a.state
            } else {
                &&& r is Ok
                &&& b.tx() == a.tx()
                &&& b.local_close_sent == a.local_close_sent
                &&& b.state == if a.local_close_sent { ConnectionState::Closed } else { ConnectionState::Closing }
            }
        },
    }
}

/// What handling one received frame (final flag `fin`, opcode `op`,
/// unmasked payload `p`) does to the state `a` (its receive buffer aside):
/// nothing once the connection is closed, otherwise as the opcode's rule
/// says.
pub open spec fn frame_effect(a: CommonState, fin: bool, op: WsOpcode, p: Seq<u8>, b: CommonState, r: WsResult<()>) -> bool {
    if a.state == ConnectionState::Closed {
        r is Ok && untouched(a, b)
    } else {
        match op {
            WsOpcode::Text => data_frame_effect(a, fin, op, p, b, r),
            WsOpcode::Binary => data_frame_effect(a, fin, op, p, b, r),
            WsOpcode::Continuation => continuation_effect(a, fin, p, b, r),
            WsOpcode::Ping => ping_effect(a, p, b, r),
            WsOpcode::Pong => r is Ok && untouched_but_queue(a, b) && b.inbox() == a.inbox().push(MessageView::Pong(p)),
            WsOpcode::Close => close_effect(a, p, b, r),
        }
    }
}

/// Only the message queue differs (besides the receive buffer).
pub open spec fn untouched_but_queue(a: CommonState, b: CommonState) -> bool {
    same_link(a, b) && b.fragment == a.fragment
}

/// What failing the connection with `e` does to `a`, giving `b` (RFC 6455
/// §7.1.7): when the error has a close code and the connection is Open or
/// Closing with no Close sent yet, a Close frame with that code and an empty
/// reason is queued and recorded as sent (always for a server; for a client
/// unless no masking key could be drawn), provided the code may be sent; the
/// state becomes Closed and `e` is recorded.
pub open spec fn failed_with(a: CommonState, b: CommonState, e: WsError) -> bool {
    let sends = spec_close_code(e) is Some && (a.state == ConnectionState::Open || a.state == ConnectionState::Closing)
        && !a.local_close_sent;
    &&& b.state == ConnectionState::Closed
    &&& b.error matches Some(e2) && same_error(e2, e)
    &&& b.rx() == a.rx()
    &&& b.queued() == a.queued()
    &&& b.fragment == a.fragment
    &&& b.role == a.role
    &&& b.config == a.config
    &&& b.peer_close_received == a.peer_close_received
    &&& b.peer_close_code == a.peer_close_code
    &&& b.peer_close_reason == a.peer_close_reason
    &&& b.protocol == a.protocol
    &&& !sends ==> b.tx() == a.tx() && b.local_close_sent == a.local_close_sent
    &&& sends ==> match close_payload(spec_close_code(e), seq![]) {
        None => b.tx() == a.tx() && !b.local_close_sent,
        Some(p) => {
            &&& a.role == Role::Server ==> b.local_close_sent
            &&& (b.tx() == a.tx() && !b.local_close_sent) || (b.local_close_sent && frame_sent(
                a.tx(),
                b.tx(),
                fresh_header(true, WsOpcode::Close, p.len()),
                p,
                a.role,
            ))
        },
    }
}

/// `e` is the error that parsing the front of `buf` reports.
pub open spec fn parse_error(buf: Seq<u8>, role: Role, max: usize, e: WsError) -> bool {
    match frame_outcome(buf, role, max) {
        FrameOutcome::Protocol => protocol_error_with(e, frame_error_text(buf, role, max)),
        FrameOutcome::TooBig(s, 0) => e == WsError::MessageTooBig { size: s as usize, limit: max },
        FrameOutcome::TooBig(_, _) => e == WsError::MessageTooBig { size: usize::MAX, limit: max },
        _ => false,
    }
}

/// One received frame: a complete frame stands at the front of `a`'s
/// receive buffer, it is consumed, and handling it turns `a` into `b` with
/// result `r`.
pub open spec fn frame_step(a: CommonState, b: CommonState, r: WsResult<()>) -> bool {
    let buf = a.rx();
    &&& frame_outcome(buf, a.role, a.config.max_frame_size) == FrameOutcome::Done
    &&& b.rx() == buf.subrange(spec_header_len(buf) + declared_len(buf), buf.len() as int)
    &&& frame_effect(a, buf[0] >= 128, opcode_of(buf[0] % 16).unwrap(), frame_payload(buf), b, r)
}

/// The `j`-th state of the run `t` leads to the next by a successful frame.
pub open spec fn step_at(t: Seq<CommonState>, j: int) -> bool {
    frame_step(t[j], t[j + 1], Ok(()))
}

/// Processing went on from the `j`-th state of the run `t`.
pub open spec fn live_at(t: Seq<CommonState>, j: int) -> bool {
    t[j].state != ConnectionState::Closed
}

/// `t` is the run of states through which processing took `a` to `b` with
/// result `r`: each state leads to the next by handling one frame; work
/// goes on after a frame unless the connection closed; it stops with `Ok`
/// when more bytes are needed or the connection closed, and with `Err`
/// when the next frame cannot be parsed or handling it fails, the
/// connection then failed with that error.
pub open spec fn ran(t: Seq<CommonState>, a: CommonState, b: CommonState, r: WsResult<IoState>) -> bool {
    let n = t.len() as int;
    let last = t[n - 1];
    &&& n >= 1
    &&& t[0] == a
    &&& forall|j: int| 0 <= j < n - 1 ==> #[trigger] step_at(t, j)
    &&& forall|j: int| 1 <= j < n - 1 ==> #[trigger] live_at(t, j)
    &&& match r {
        Ok(io) => b == last && io == b.spec_io_state() && (frame_outcome(b.rx(), b.role, b.config.max_frame_size)
            == FrameOutcome::NeedMore || (n >= 2 && b.state == ConnectionState::Closed)),
        Err(e) => (n >= 2 ==> live_at(t, n - 1)) && ((parse_error(last.rx(), last.role,
            last.config.max_frame_size, e) && failed_with(last, b, e)) || exists|mid: CommonState|
            frame_step(last, mid, Err(e)) && #[trigger] failed_with(mid, b, e)),
    }
}

/// What processing buffered frames does to the state `a`, giving `b` and
/// the result `r`: a recorded error is returned again and nothing changes;
/// before the handshake the call fails with `HandshakeNotComplete`; a
/// closed connection with nothing buffered reports its sizes; otherwise
/// frames are consumed from the front of the receive buffer and messages
/// appended to the queue until more bytes are needed or the connection
/// closes, and a failure closes the connection and is recorded.
pub open spec fn frames_processed(a: CommonState, b: CommonState, r: WsResult<IoState>) -> bool {
    &&& b.role == a.role
    &&& b.config == a.config
    &&& a.error matches Some(e) ==> (r matches Err(e2) && same_error(e2, e))
        && b.rx() == a.rx() && b.tx() == a.tx()
        && b.queued() == a.queued() && b.same_flags(&a)
    &&& a.error is None && a.state == ConnectionState::Connecting
        ==> r == Err::<IoState, WsError>(WsError::HandshakeNotComplete)
        && b.rx() == a.rx() && b.tx() == a.tx()
        && b.queued() == a.queued() && b.same_flags(&a)
    &&& a.error is None && a.state == ConnectionState::Closed && a.rx().len() == 0
        ==> r == Ok::<IoState, WsError>(a.spec_io_state()) && b.tx() == a.tx()
        && b.queued() == a.queued() && b.same_flags(&a)
    &&& a.error is None && a.state != ConnectionState::Connecting ==> {
        &&& r matches Ok(io) ==> io == b.spec_io_state()
            && b.error is None
            && (b.state == ConnectionState::Closed
                || frame_outcome(b.rx(), b.role, b.config.max_frame_size) == FrameOutcome::NeedMore)
        &&& r matches Err(e) ==> b.state == ConnectionState::Closed
            && (b.error matches Some(e2) && same_error(e2, e))
        &&& exists|k: int| 0 <= k <= a.rx().len()
            && b.rx() == #[trigger] a.rx().subrange(k, a.rx().len() as int)
        &&& b.queued().len() >= a.queued().len()
        &&& b.queued().subrange(0, a.queued().len() as int) == a.queued()
    }
    &&& a.error is None && a.state != ConnectionState::Connecting
        && !(a.state == ConnectionState::Closed && a.rx().len() == 0)
        ==> exists|t: Seq<CommonState>| ran(t, a, b, r)
}

impl CommonState {
    /// Bytes received and not yet consumed.
    pub open spec fn rx(&self) -> Seq<u8> {
        self.rx_buf@
    }

    /// Bytes queued for the transport.
    pub open spec fn tx(&self) -> Seq<u8> {
        self.tx_buf@
    }

    /// Complete messages waiting for the application, oldest first.
    pub open spec fn queued(&self) -> Seq<WsMessage> {
        self.messages@
    }

    /// The views of the queued messages, oldest first.
    pub open spec fn inbox(&self) -> Seq<MessageView> {
        self.queued().map_values(|m: WsMessage| message_view(m))
    }

    /// Whether a fragmented data message is being reassembled.
    pub open spec fn fragmenting(&self) -> bool {
        self.fragment.opcode is Some
    }

    /// Internal consistency of the reassembly state (guaranteed while no
    /// sticky error is recorded).
    pub open spec fn wf(&self) -> bool {
        self.error is None ==> {
            &&& self.fragment.utf8.wf()
            &&& (self.fragment.opcode matches Some(op) ==> op.spec_is_data())
            &&& (self.fragment.opcode == Some(WsOpcode::Text) ==> consistent(self.fragment.data@, self.fragment.utf8@))
        }
    }

    /// Everything but the buffers, queue and fragment state.
    pub open spec fn same_flags(&self, other: &CommonState) -> bool {
        &&& self.role == other.role
        &&& self.state == other.state
        &&& self.config == other.config
        &&& self.local_close_sent == other.local_close_sent
        &&& self.peer_close_received == other.peer_close_received
        &&& self.peer_close_code == other.peer_close_code
        &&& self.peer_close_reason == other.peer_close_reason
        &&& self.protocol == other.protocol
        &&& self.error == other.error
    }

    /// Only the transmit buffer may differ.
    pub open spec fn same_but_tx(&self, other: &CommonState) -> bool {
        &&& self.same_flags(other)
        &&& self.rx() == other.rx()
        &&& self.queued() == other.queued()
        &&& self.fragment == other.fragment
    }

    /// The buffer and queue sizes.
    pub open spec fn spec_io_state(&self) -> IoState {
        IoState {
            pending_rx: self.rx().len() as usize,
            pending_tx: self.tx().len() as usize,
            pending_messages: self.queued().len() as usize,
        }
    }

    /// Creates shared state for `role` with `config`.
    pub fn new(role: Role, config: ConnectionConfig) -> (s: CommonState)
        ensures
            s.wf(),
            s.role == role,
            s.config == config,
            s.state == ConnectionState::Connecting,
            s.rx() == Seq::<u8>::empty(),
            s.tx() == Seq::<u8>::empty(),
            s.queued() == Seq::<WsMessage>::empty(),
            !s.fragmenting(),
            !s.local_close_sent,
            !s.peer_close_received,
            s.peer_close_code is None,
            s.peer_close_reason is None,
            s.protocol is None,
            s.error is None,
    {
        CommonState {
            role,
            state: ConnectionState::Connecting,
            config,
            rx_buf: Vec::new(),
            tx_buf: Vec::new(),
            messages: VecDeque::new(),
            fragment: FragmentBuf { opcode: None, data: Vec::new(), utf8: Utf8Validator::new() },
            local_close_sent: false,
            peer_close_received: false,
            peer_close_code: None,
            peer_close_reason: None,
            protocol: None,
            error: None,
        }
    }

    /// Returns `true` while the opening handshake is incomplete.
    pub fn is_connecting(&self) -> (r: bool)
        ensures
            r == (self.state == ConnectionState::Connecting),
    {
        self.state == ConnectionState::Connecting
    }

    /// Returns `true` when data frames may be exchanged.
    pub fn is_open(&self) -> (r: bool)
        ensures
            r == (self.state == ConnectionState::Open),
    {
        self.state == ConnectionState::Open
    }

    /// Returns `true` when the connection is fully closed.
    pub fn is_closed(&self) -> (r: bool)
        ensures
            r == (self.state == ConnectionState::Closed),
    {
        self.state == ConnectionState::Closed
    }

    /// Returns `true` when outbound bytes are pending.
    pub fn wants_write(&self) -> (r: bool)
        ensures
            r == (self.tx().len() > 0),
    {
        self.tx_buf.len() > 0
    }

    /// Returns `true` when more network input may be useful.
    pub fn wants_read(&self) -> (r: bool)
        ensures
            r == (self.state != ConnectionState::Closed && !self.peer_close_received),
    {
        !self.is_closed() && !self.peer_close_received
    }

    /// Appends transport bytes to the receive buffer.
    pub fn feed(&mut self, data: &[u8])
        ensures
            final(self).rx() == old(self).rx() + data@,
            final(self).tx() == old(self).tx(),
            final(self).queued() == old(self).queued(),
            final(self).fragment == old(self).fragment,
            final(self).same_flags(old(self)),
            old(self).wf() ==> final(self).wf(),
    {
        let mut j: usize = 0;
        let ghost start = self.rx_buf@;
        while j < data.len()
            invariant
                j <= data@.len(),
                self.rx_buf@ == start + data@.subrange(0, j as int),
                self.tx_buf@ == old(self).tx_buf@,
                self.messages@ == old(self).messages@,
                self.fragment == old(self).fragment,
                start == old(self).rx_buf@,
                self.same_flags(old(self)),
            decreases data@.len() - j,
        {
            self.rx_buf.push(data[j]);
            j = j + 1;
            proof {
                assert(self.rx_buf@ =~= start + data@.subrange(0, j as int));
            }
        }
        proof {
            assert(data@.subrange(0, data@.len() as int) =~= data@);
        }
    }

    /// Drains all buffered outbound transport bytes.
    pub fn take_write(&mut self) -> (out: Vec<u8>)
        ensures
            out@ == old(self).tx(),
            final(self).tx() == Seq::<u8>::empty(),
            final(self).rx() == old(self).rx(),
            final(self).queued() == old(self).queued(),
            final(self).fragment == old(self).fragment,
            final(self).same_flags(old(self)),
            old(self).wf() ==> final(self).wf(),
    {
        let mut out: Vec<u8> = Vec::new();
        std::mem::swap(&mut out, &mut self.tx_buf);
        out
    }

    /// Appends raw bytes to the outbound buffer (used for the HTTP handshake).
    pub fn queue_raw(&mut self, data: &[u8])
        ensures
            final(self).tx() == old(self).tx() + data@,
            final(self).same_but_tx(old(self)),
    {
        let mut j: usize = 0;
        let ghost start = self.tx_buf@;
        while j < data.len()
            invariant
                j <= data@.len(),
                self.tx_buf@ == start + data@.subrange(0, j as int),
                self.rx_buf@ == old(self).rx_buf@,
                self.messages@ == old(self).messages@,
                self.fragment == old(self).fragment,
                start == old(self).tx_buf@,
                self.same_flags(old(self)),
            decreases data@.len() - j,
        {
            self.tx_buf.push(data[j]);
            j = j + 1;
            proof {
                assert(self.tx_buf@ =~= start + data@.subrange(0, j as int));
            }
        }
        proof {
            assert(data@.subrange(0, data@.len() as int) =~= data@);
        }
    }

    /// Number of outbound transport bytes pending.
    pub fn pending_tx_len(&self) -> (r: usize)
        ensures
            r == self.tx().len(),
    {
        self.tx_buf.len()
    }

    /// Immutable view of the inbound buffer (for handshake parsers).
    pub fn rx_buf(&self) -> (r: &[u8])
        ensures
            r@ == self.rx(),
    {
        self.rx_buf.as_slice()
    }

    /// Consumes `n` bytes from the front of the inbound buffer (all of it
    /// when `n` is at least its length).
    pub fn consume_rx(&mut self, n: usize)
        ensures
            n >= old(self).rx().len() ==> final(self).rx() == Seq::<u8>::empty(),
            n < old(self).rx().len() ==> final(self).rx() == old(self).rx().subrange(n as int, old(self).rx().len() as int),
            final(self).tx() == old(self).tx(),
            final(self).queued() == old(self).queued(),
            final(self).fragment == old(self).fragment,
            final(self).same_flags(old(self)),
            old(self).wf() ==> final(self).wf(),
    {
        if n >= self.rx_buf.len() {
            self.rx_buf.clear();
        } else {
            let len = self.rx_buf.len();
            let mut rest: Vec<u8> = Vec::new();
            let mut j: usize = n;
            while j < len
                invariant
                    n <= j <= len,
                    len == self.rx_buf@.len(),
                    rest@ == self.rx_buf@.subrange(n as int, j as int),
                decreases len - j,
            {
                rest.push(self.rx_buf[j]);
                j = j + 1;
                proof {
                    assert(rest@ =~= self.rx_buf@.subrange(n as int, j as int));
                }
            }
            self.rx_buf = rest;
        }
    }

    /// Transitions from Connecting to Open after a successful handshake.
    pub fn mark_open(&mut self, protocol: Option<String>)
        ensures
            final(self).state == ConnectionState::Open,
            final(self).protocol == protocol,
            final(self).role == old(self).role,
            final(self).config == old(self).config,
            final(self).local_close_sent == old(self).local_close_sent,
            final(self).peer_close_received == old(self).peer_close_received,
            final(self).peer_close_code == old(self).peer_close_code,
            final(self).peer_close_reason == old(self).peer_close_reason,
            final(self).error == old(self).error,
            final(self).rx() == old(self).rx(),
            final(self).tx() == old(self).tx(),
            final(self).queued() == old(self).queued(),
            final(self).fragment == old(self).fragment,
            old(self).wf() ==> final(self).wf(),
    {
        self.state = ConnectionState::Open;
        self.protocol = protocol;
    }

    /// Queues a frame for transmission, masking it with a fresh random key
    /// when this side is the client. Fails with `Closed` once the
    /// connection is closed, refuses data and continuation frames after a
    /// local Close, and fails with `RandomFailed` when no key can be drawn.
    pub fn send_frame(&mut self, frame: &WsFrame) -> (r: WsResult<()>)
        ensures
            final(self).same_but_tx(old(self)),
            old(self).state == ConnectionState::Closed ==> r == Err::<(), WsError>(WsError::Closed),
            old(self).state != ConnectionState::Closed && old(self).local_close_sent
                && frame.header.opcode.spec_is_data()
                ==> (r matches Err(e) && invalid_state_with(e, "cannot send data frames after Close"@)),
            old(self).state != ConnectionState::Closed && old(self).local_close_sent
                && frame.header.opcode == WsOpcode::Continuation
                ==> (r matches Err(e) && invalid_state_with(e, "cannot send continuation after Close"@)),
            old(self).state != ConnectionState::Closed && !(old(self).local_close_sent
                && (frame.header.opcode.spec_is_data() || frame.header.opcode == WsOpcode::Continuation))
                ==> (r is Ok || r == Err::<(), WsError>(WsError::RandomFailed))
                && (old(self).role == Role::Server ==> r is Ok),
            r is Ok ==> frame_sent(old(self).tx(), final(self).tx(), frame.header, frame.payload@, old(self).role),
            r is Err ==> final(self).tx() == old(self).tx(),
    {
        if self.state == ConnectionState::Closed {
            return Err(WsError::Closed);
        }
        if self.local_close_sent && frame.header.opcode.is_data() {
            return Err(WsError::invalid_state("cannot send data frames after Close"));
        }
        if self.local_close_sent && frame.header.opcode == WsOpcode::Continuation {
            return Err(WsError::invalid_state("cannot send continuation after Close"));
        }
        let mask = if self.role.must_mask_outbound() {
            Some(random_mask_key()?)
        } else {
            None
        };
        let ghost before = self.tx_buf@;
        let _ = frame.encode(&mut self.tx_buf, mask);
        proof {
            match mask {
                Some(k) => {
                    assert(k@.len() == 4);
                    assert(self.tx_buf@ == before + encode_frame(frame.header, frame.payload@, Some(k@)));
                },
                None => {},
            }
        }
        Ok(())
    }

    /// Data frames may be sent: the connection is open and no Close was sent.
    fn ensure_can_send_data(&self) -> (r: WsResult<()>)
        ensures
            r is Ok <==> (self.state == ConnectionState::Open && !self.local_close_sent),
            r is Err ==> (r matches Err(e) && invalid_state_with(e, data_refusal_text(self.state))),
    {
        if self.state != ConnectionState::Open {
            return Err(WsError::invalid_state("connection is not open for data frames"));
        }
        if self.local_close_sent {
            return Err(WsError::invalid_state("cannot send data after Close"));
        }
        Ok(())
    }

    /// Sends a complete text message as a single frame; its UTF-8 bytes must
    /// fit within `max_message_size`.
    pub fn send_text(&mut self, text: &str) -> (r: WsResult<()>)
        ensures
            final(self).same_but_tx(old(self)),
            r is Err ==> final(self).tx() == old(self).tx(),
            !(old(self).state == ConnectionState::Open && !old(self).local_close_sent)
                ==> (r matches Err(e) && invalid_state_with(e, data_refusal_text(old(self).state))),
            old(self).state == ConnectionState::Open && !old(self).local_close_sent
                && encode_utf8(text@).len() > old(self).config.max_message_size
                ==> r == Err::<(), WsError>(WsError::MessageTooBig {
                    size: encode_utf8(text@).len() as usize,
                    limit: old(self).config.max_message_size,
                }),
            old(self).state == ConnectionState::Open && !old(self).local_close_sent
                && encode_utf8(text@).len() <= old(self).config.max_message_size
                ==> (r is Ok || r == Err::<(), WsError>(WsError::RandomFailed))
                && (old(self).role == Role::Server ==> r is Ok),
            r is Ok ==> frame_sent(old(self).tx(), final(self).tx(),
                fresh_header(true, WsOpcode::Text, encode_utf8(text@).len()), encode_utf8(text@), old(self).role),
    {
        self.ensure_can_send_data()?;
        let bytes = text.as_bytes();
        if bytes.len() > self.config.max_message_size {
            return Err(WsError::MessageTooBig { size: bytes.len(), limit: self.config.max_message_size });
        }
        let payload = vstd::slice::slice_to_vec(bytes);
        let frame = WsFrame::text(payload);
        self.send_frame(&frame)
    }

    /// Sends a complete binary message as a single frame; it must fit within
    /// `max_message_size`.
    pub fn send_binary(&mut self, data: &[u8]) -> (r: WsResult<()>)
        ensures
            final(self).same_but_tx(old(self)),
            r is Err ==> final(self).tx() == old(self).tx(),
            !(old(self).state == ConnectionState::Open && !old(self).local_close_sent)
                ==> (r matches Err(e) && invalid_state_with(e, data_refusal_text(old(self).state))),
            old(self).state == ConnectionState::Open && !old(self).local_close_sent
                && data@.len() > old(self).config.max_message_size
                ==> r == Err::<(), WsError>(WsError::MessageTooBig {
                    size: data@.len() as usize,
                    limit: old(self).config.max_message_size,
                }),
            old(self).state == ConnectionState::Open && !old(self).local_close_sent
                && data@.len() <= old(self).config.max_message_size
                ==> (r is Ok || r == Err::<(), WsError>(WsError::RandomFailed))
                && (old(self).role == Role::Server ==> r is Ok),
            r is Ok ==> frame_sent(old(self).tx(), final(self).tx(),
                fresh_header(true, WsOpcode::Binary, data@.len()), data@, old(self).role),
    {
        self.ensure_can_send_data()?;
        if data.len() > self.config.max_message_size {
            return Err(WsError::MessageTooBig { size: data.len(), limit: self.config.max_message_size });
        }
        let frame = WsFrame::binary(vstd::slice::slice_to_vec(data));
        self.send_frame(&frame)
    }

    /// Sends a Ping control frame (Open or Closing, before a local Close;
    /// at most 125 payload bytes).
    pub fn send_ping(&mut self, payload: &[u8]) -> (r: WsResult<()>)
        ensures
            final(self).same_but_tx(old(self)),
            r is Err ==> final(self).tx() == old(self).tx(),
            !(old(self).state == ConnectionState::Open || old(self).state == ConnectionState::Closing)
                ==> (r matches Err(e) && invalid_state_with(e, "cannot ping in current state"@)),
            (old(self).state == ConnectionState::Open || old(self).state == ConnectionState::Closing)
                && old(self).local_close_sent
                ==> (r matches Err(e) && invalid_state_with(e, "cannot ping after Close"@)),
            (old(self).state == ConnectionState::Open || old(self).state == ConnectionState::Closing)
                && !old(self).local_close_sent && payload@.len() > 125
                ==> (r matches Err(e) && protocol_error_with(e, "ping payload exceeds 125 bytes"@)),
            (old(self).state == ConnectionState::Open || old(self).state == ConnectionState::Closing)
                && !old(self).local_close_sent && payload@.len() <= 125
                ==> (r is Ok || r == Err::<(), WsError>(WsError::RandomFailed))
                && (old(self).role == Role::Server ==> r is Ok),
            r is Ok ==> frame_sent(old(self).tx(), final(self).tx(),
                fresh_header(true, WsOpcode::Ping, payload@.len()), payload@, old(self).role),
    {
        if self.state != ConnectionState::Open && self.state != ConnectionState::Closing {
            return Err(WsError::invalid_state("cannot ping in current state"));
        }
        if self.local_close_sent {
            return Err(WsError::invalid_state("cannot ping after Close"));
        }
        let frame = WsFrame::ping(vstd::slice::slice_to_vec(payload))?;
        self.send_frame(&frame)
    }

    /// Sends a Pong control frame (not while connecting or closed; at most
    /// 125 payload bytes).
    pub fn send_pong(&mut self, payload: &[u8]) -> (r: WsResult<()>)
        ensures
            final(self).same_but_tx(old(self)),
            r is Err ==> final(self).tx() == old(self).tx(),
            (old(self).state == ConnectionState::Closed || old(self).state == ConnectionState::Connecting)
                ==> (r matches Err(e) && invalid_state_with(e, "cannot pong in current state"@)),
            !(old(self).state == ConnectionState::Closed || old(self).state == ConnectionState::Connecting)
                && payload@.len() > 125 ==> (r matches Err(e) && protocol_error_with(e, "pong payload exceeds 125 bytes"@)),
            !(old(self).state == ConnectionState::Closed || old(self).state == ConnectionState::Connecting)
                && payload@.len() <= 125
                ==> (r is Ok || r == Err::<(), WsError>(WsError::RandomFailed))
                && (old(self).role == Role::Server ==> r is Ok),
            r is Ok ==> frame_sent(old(self).tx(), final(self).tx(),
                fresh_header(true, WsOpcode::Pong, payload@.len()), payload@, old(self).role),
    {
        if self.state == ConnectionState::Closed || self.state == ConnectionState::Connecting {
            return Err(WsError::invalid_state("cannot pong in current state"));
        }
        let frame = WsFrame::pong(vstd::slice::slice_to_vec(payload))?;
        self.send_frame(&frame)
    }

    /// Starts the closing handshake with `code` and `reason` (RFC 6455
    /// §7.1.2): a no-op once a Close was sent or the connection is closed;
    /// while connecting the connection just closes; otherwise a Close frame
    /// is queued and the state becomes Closing, or Closed when the peer
    /// already closed.
    pub fn close(&mut self, code: WsCloseCode, reason: &str) -> (r: WsResult<()>)
        ensures
            final(self).rx() == old(self).rx(),
            final(self).queued() == old(self).queued(),
            final(self).fragment == old(self).fragment,
            old(self).wf() ==> final(self).wf(),
            final(self).role == old(self).role,
            final(self).config == old(self).config,
            final(self).peer_close_received == old(self).peer_close_received,
            final(self).peer_close_code == old(self).peer_close_code,
            final(self).peer_close_reason == old(self).peer_close_reason,
            final(self).protocol == old(self).protocol,
            final(self).error == old(self).error,
            old(self).local_close_sent || old(self).state == ConnectionState::Closed ==> r is Ok
                && *final(self) == *old(self),
            !old(self).local_close_sent && old(self).state == ConnectionState::Connecting ==> r is Ok
                && final(self).tx() == old(self).tx() && final(self).state == ConnectionState::Closed
                && !final(self).local_close_sent,
            !old(self).local_close_sent && (old(self).state == ConnectionState::Open
                || old(self).state == ConnectionState::Closing) ==> match close_payload(Some(code), encode_utf8(reason@)) {
                None => r matches Err(e) && protocol_error_with(e, close_payload_error_text(Some(code)))
                    && final(self).tx() == old(self).tx()
                    && final(self).state == old(self).state && !final(self).local_close_sent,
                Some(p) => (r is Ok || r == Err::<(), WsError>(WsError::RandomFailed))
                    && (old(self).role == Role::Server ==> r is Ok)
                    && (r is Err ==> final(self).tx() == old(self).tx() && final(self).state == old(self).state
                        && !final(self).local_close_sent)
                    && (r is Ok ==> frame_sent(old(self).tx(), final(self).tx(),
                        fresh_header(true, WsOpcode::Close, p.len()), p, old(self).role)
                        && final(self).local_close_sent
                        && final(self).state == (if old(self).peer_close_received { ConnectionState::Closed }
                            else { ConnectionState::Closing })),
            },
    {
        if self.local_close_sent || self.state == ConnectionState::Closed {
            return Ok(());
        }
        if self.state == ConnectionState::Connecting {
            self.state = ConnectionState::Closed;
            return Ok(());
        }
        let frame = WsFrame::close(Some(code), reason)?;
        self.send_frame(&frame)?;
        self.local_close_sent = true;
        self.state = if self.peer_close_received {
            ConnectionState::Closed
        } else {
            ConnectionState::Closing
        };
        Ok(())
    }

    /// Fails the connection (RFC 6455 §7.1.7): when the error carries a
    /// close code and the connection is Open or Closing with no Close sent
    /// yet, a Close with that code is attempted; then the state becomes
    /// Closed and the error is recorded. Returns `err`.
    pub fn fail(&mut self, err: WsError) -> (r: WsError)
        ensures
            r == err,
            final(self).wf(),
            failed_with(*old(self), *final(self), err),
    {
        match err.close_code() {
            Some(code) => {
                if (self.state == ConnectionState::Open || self.state == ConnectionState::Closing)
                    && !self.local_close_sent {
                    proof {
                        reveal_strlit("");
                        assert(encode_utf8(""@) =~= Seq::<u8>::empty());
                    }
                    let _ = self.close(code, "");
                }
            },
            None => {},
        }
        self.state = ConnectionState::Closed;
        self.error = Some(err.clone());
        err
    }

    /// Pops the next complete message, if any.
    pub fn read_message(&mut self) -> (r: Option<WsMessage>)
        ensures
            old(self).queued().len() == 0 ==> r is None && final(self).queued() == old(self).queued(),
            old(self).queued().len() > 0 ==> r == Some(old(self).queued()[0])
                && final(self).queued() == old(self).queued().subrange(1, old(self).queued().len() as int),
            final(self).rx() == old(self).rx(),
            final(self).tx() == old(self).tx(),
            final(self).fragment == old(self).fragment,
            final(self).same_flags(old(self)),
            old(self).wf() ==> final(self).wf(),
    {
        self.messages.pop_front()
    }

    /// Number of buffered complete messages.
    pub fn pending_messages(&self) -> (r: usize)
        ensures
            r == self.queued().len(),
    {
        self.messages.len()
    }

    fn io_state(&self) -> (r: IoState)
        ensures
            r == self.spec_io_state(),
    {
        IoState { pending_rx: self.rx_buf.len(), pending_tx: self.tx_buf.len(), pending_messages: self.messages.len() }
    }

    /// Delivers a complete data message: text must be UTF-8, and neither
    /// may exceed `max_message_size`.
    fn deliver_complete(&mut self, opcode: WsOpcode, payload: Vec<u8>) -> (r: WsResult<()>)
        ensures
            final(self).same_but_tx(old(self)) || r is Ok,
            final(self).tx() == old(self).tx(),
            final(self).rx() == old(self).rx(),
            final(self).same_flags(old(self)),
            final(self).fragment == old(self).fragment,
            r is Err ==> final(self).queued() == old(self).queued(),
            payload@.len() > old(self).config.max_message_size ==> too_big(r, payload@.len() as int,
                old(self).config.max_message_size),
            payload@.len() <= old(self).config.max_message_size ==> {
                &&& opcode == WsOpcode::Text && !valid_utf8(payload@) ==> r == Err::<(), WsError>(WsError::InvalidUtf8)
                &&& opcode == WsOpcode::Text && valid_utf8(payload@) ==> r is Ok
                    && final(self).queued().len() == old(self).queued().len() + 1
                    && final(self).queued().subrange(0, old(self).queued().len() as int) == old(self).queued()
                    && (final(self).queued().last() matches WsMessage::Text(t) && t@ == decode_utf8(payload@))
                &&& opcode == WsOpcode::Binary ==> r is Ok
                    && final(self).queued() == old(self).queued().push(WsMessage::Binary(payload))
                &&& !opcode.spec_is_data() ==> r matches Err(WsError::Internal(_))
            },
    {
        if payload.len() > self.config.max_message_size {
            return Err(WsError::MessageTooBig { size: payload.len(), limit: self.config.max_message_size });
        }
        match opcode {
            WsOpcode::Text => {
                if validate_utf8(payload.as_slice()).is_err() {
                    return Err(WsError::InvalidUtf8);
                }
                let text = string_from_utf8(payload);
                self.messages.push_back(WsMessage::Text(text));
            },
            WsOpcode::Binary => {
                self.messages.push_back(WsMessage::Binary(payload));
            },
            _ => {
                return Err(WsError::Internal(String::from_str("deliver_complete called with non-data opcode")));
            },
        }
        Ok(())
    }

    /// Appends a fragment's payload to the message being reassembled,
    /// feeding text fragments to the streaming UTF-8 validator.
    fn append_fragment(&mut self, payload: &[u8]) -> (r: WsResult<()>)
        requires
            old(self).fragment.utf8.wf(),
        ensures
            final(self).tx() == old(self).tx(),
            final(self).rx() == old(self).rx(),
            final(self).queued() == old(self).queued(),
            final(self).same_flags(old(self)),
            final(self).fragment.opcode == old(self).fragment.opcode,
            old(self).fragment.data@.len() + payload@.len() > old(self).config.max_message_size ==> too_big(
                r, capped_sum(old(self).fragment.data@.len() as int, payload@.len() as int),
                old(self).config.max_message_size),
            old(self).fragment.data@.len() + payload@.len() <= old(self).config.max_message_size
                && old(self).fragment.opcode != Some(WsOpcode::Text) ==> r is Ok,
            old(self).fragment.data@.len() + payload@.len() <= old(self).config.max_message_size
                && old(self).fragment.opcode == Some(WsOpcode::Text) ==> (r is Ok || r == Err::<(), WsError>(
                WsError::InvalidUtf8)) && ((exists|t: Seq<u8>| valid_utf8(
                #[trigger] (old(self).fragment.utf8@ + payload@ + t))) <==> r is Ok),
            r is Ok ==> final(self).fragment.data@ == old(self).fragment.data@ + payload@
                && final(self).fragment.utf8.wf()
                && (old(self).fragment.opcode != Some(WsOpcode::Text) ==> final(self).fragment.utf8 == old(self).fragment.utf8),
            r is Ok && old(self).fragment.opcode == Some(WsOpcode::Text)
                && consistent(old(self).fragment.data@, old(self).fragment.utf8@)
                ==> consistent(final(self).fragment.data@, final(self).fragment.utf8@),
    {
        let new_len = match self.fragment.data.len().checked_add(payload.len()) {
            Some(n) => n,
            None => {
                return Err(WsError::MessageTooBig { size: usize::MAX, limit: self.config.max_message_size });
            },
        };
        if new_len > self.config.max_message_size {
            return Err(WsError::MessageTooBig { size: new_len, limit: self.config.max_message_size });
        }
        let is_text = match self.fragment.opcode {
            Some(WsOpcode::Text) => true,
            _ => false,
        };
        let ghost history = self.fragment.data@;
        let ghost pending = self.fragment.utf8@;
        if is_text {
            self.fragment.utf8.feed(payload)?;
            proof {
                if consistent(history, pending) {
                    lemma_feed_extends(history, pending, payload@, self.fragment.utf8@);
                }
            }
        }
        let ghost fed = self.fragment.utf8@;
        push_all(&mut self.fragment.data, payload);
        assert(self.fragment.utf8@ == fed);
        Ok(())
    }

    /// Starts reassembling a fragmented data message.
    fn begin_fragment(&mut self, opcode: WsOpcode, payload: Vec<u8>) -> (r: WsResult<()>)
        ensures
            final(self).tx() == old(self).tx(),
            final(self).rx() == old(self).rx(),
            final(self).queued() == old(self).queued(),
            final(self).same_flags(old(self)),
            !opcode.spec_is_data() ==> r is Err && is_protocol_error(r->Err_0)
                && final(self).fragment == old(self).fragment,
            opcode.spec_is_data() ==> final(self).fragment.opcode == Some(opcode),
            opcode.spec_is_data() && payload@.len() > old(self).config.max_message_size ==> too_big(
                r, payload@.len() as int, old(self).config.max_message_size),
            opcode == WsOpcode::Binary && payload@.len() <= old(self).config.max_message_size ==> r is Ok,
            opcode == WsOpcode::Text && payload@.len() <= old(self).config.max_message_size ==> (r is Ok
                || r == Err::<(), WsError>(WsError::InvalidUtf8)) && ((exists|t: Seq<u8>| valid_utf8(
                #[trigger] (payload@ + t))) <==> r is Ok),
            r is Ok ==> final(self).fragment.data@ == payload@ && final(self).fragment.utf8.wf()
                && (opcode == WsOpcode::Text ==> consistent(final(self).fragment.data@, final(self).fragment.utf8@)),
    {
        if !opcode.is_data() {
            return Err(WsError::protocol(WsCloseCode::ProtocolError, "fragmented message must start with text or binary"));
        }
        let ghost n = payload.len();
        self.fragment.opcode = Some(opcode);
        self.fragment.data.clear();
        self.fragment.utf8.reset();
        proof {
            let e = Seq::<u8>::empty();
            assert(valid_utf8(e));
            assert(e + e =~= e);
            assert(consistent(self.fragment.data@, self.fragment.utf8@));
            if exists|t: Seq<u8>| valid_utf8(#[trigger] (payload@ + t)) {
                let t = choose|t: Seq<u8>| valid_utf8(#[trigger] (payload@ + t));
                assert(e + payload@ + t =~= payload@ + t);
                assert(valid_utf8(self.fragment.utf8@ + payload@ + t));
            }
            if exists|t: Seq<u8>| valid_utf8(#[trigger] (self.fragment.utf8@ + payload@ + t)) {
                let t = choose|t: Seq<u8>| valid_utf8(#[trigger] (self.fragment.utf8@ + payload@ + t));
                assert(e + payload@ + t =~= payload@ + t);
                assert(valid_utf8(payload@ + t));
            }
        }
        self.append_fragment(payload.as_slice())?;
        proof {
            assert(Seq::<u8>::empty() + payload@ =~= payload@);
        }
        Ok(())
    }

    /// A Text or Binary frame: delivered when final, otherwise begins a
    /// fragmented message; dropped after either side sent Close.
    fn handle_data_start(&mut self, frame: WsFrame) -> (r: WsResult<()>)
        requires
            old(self).wf(),
            old(self).error is None,
            frame.header.opcode.spec_is_data(),
        ensures
            final(self).rx() == old(self).rx(),
            r is Ok ==> final(self).wf(),
            data_frame_effect(*old(self), frame.header.fin, frame.header.opcode, frame.payload@, *final(self), r),
            final(self).queued().len() >= old(self).queued().len(),
            final(self).queued().subrange(0, old(self).queued().len() as int) == old(self).queued(),
    {
        if self.fragment.is_active() {
            return Err(WsError::protocol(WsCloseCode::ProtocolError, "new data frame while fragmentation in progress"));
        }
        if self.peer_close_received || self.local_close_sent {
            proof {
                assert(self.messages@.subrange(0, self.messages@.len() as int) =~= self.messages@);
            }
            return Ok(());
        }
        let ghost before = *self;
        let ghost p = frame.payload@;
        let ghost op = frame.header.opcode;
        if frame.header.fin {
            let ghost q = self.messages@;
            self.deliver_complete(frame.header.opcode, frame.payload)?;
            proof {
                if self.messages@.len() > q.len() {
                    assert(self.messages@.subrange(0, q.len() as int) =~= q);
                }
                assert(self.inbox() =~= before.inbox().push(data_view(op, p)));
            }
        } else {
            self.begin_fragment(frame.header.opcode, frame.payload)?;
            proof {
                assert(self.messages@.subrange(0, self.messages@.len() as int) =~= self.messages@);
            }
        }
        Ok(())
    }

    /// A Continuation frame: appended to the message being reassembled,
    /// which is delivered on the final fragment.
    fn handle_continuation(&mut self, frame: WsFrame) -> (r: WsResult<()>)
        requires
            old(self).wf(),
            old(self).error is None,
        ensures
            final(self).rx() == old(self).rx(),
            r is Ok ==> final(self).wf(),
            continuation_effect(*old(self), frame.header.fin, frame.payload@, *final(self), r),
            final(self).queued().len() >= old(self).queued().len(),
            final(self).queued().subrange(0, old(self).queued().len() as int) == old(self).queued(),
    {
        if !self.fragment.is_active() {
            return Err(WsError::protocol(WsCloseCode::ProtocolError, "unexpected continuation frame"));
        }
        proof {
            assert(self.messages@.subrange(0, self.messages@.len() as int) =~= self.messages@);
        }
        let ghost before = *self;
        let ghost d = self.fragment.data@;
        let ghost p = frame.payload@;
        proof {
            if self.fragment.opcode == Some(WsOpcode::Text) {
                if exists|t: Seq<u8>| valid_utf8(#[trigger] (d + p + t)) {
                    let t = choose|t: Seq<u8>| valid_utf8(#[trigger] (d + p + t));
                    lemma_valid_message_feeds(d, self.fragment.utf8@, p, t);
                }
                if valid_utf8(d + p) {
                    let e = Seq::<u8>::empty();
                    assert(d + p + e =~= d + p);
                    lemma_valid_message_feeds(d, self.fragment.utf8@, p, e);
                }
                let u = self.fragment.utf8@;
                if exists|t: Seq<u8>| valid_utf8(#[trigger] (u + p + t)) {
                    let t = choose|t: Seq<u8>| valid_utf8(#[trigger] (u + p + t));
                    let g = choose|g: Seq<u8>| valid_utf8(g) && #[trigger] (g + u) == d;
                    crate::ws_utf8::lemma_valid_concat(g, u + p + t);
                    assert(d + p + t =~= g + (u + p + t));
                    assert(valid_utf8(d + p + t));
                }
            }
        }
        self.append_fragment(frame.payload.as_slice())?;
        if frame.header.fin {
            let opcode = match self.fragment.opcode {
                Some(op) => op,
                None => {
                    return Err(WsError::Internal(String::from_str("fragment opcode missing")));
                },
            };
            let mut data: Vec<u8> = Vec::new();
            std::mem::swap(&mut data, &mut self.fragment.data);
            if opcode == WsOpcode::Text {
                proof {
                    self.fragment.utf8.lemma_open_prefix();
                    lemma_finish_iff_valid(data@, self.fragment.utf8@);
                }
                self.fragment.utf8.finish()?;
            }
            self.fragment.clear();
            let ghost q = self.messages@;
            self.deliver_complete(opcode, data)?;
            proof {
                if self.messages@.len() > q.len() {
                    assert(self.messages@.subrange(0, q.len() as int) =~= q);
                }
                assert(self.inbox() =~= before.inbox().push(data_view(opcode, d + p)));
            }
        }
        Ok(())
    }

    /// A Ping frame: answered with a matching Pong when auto-pong is on and
    /// the connection is open (not once it is closing), then surfaced to the
    /// application.
    fn handle_ping(&mut self, frame: WsFrame) -> (r: WsResult<()>)
        ensures
            final(self).rx() == old(self).rx(),
            ping_effect(*old(self), frame.payload@, *final(self), r),
            r is Ok ==> final(self).queued() == old(self).queued().push(WsMessage::Ping(frame.payload)),
            r is Err ==> final(self).queued() == old(self).queued(),
    {
        let ghost before = *self;
        let ghost p = frame.payload@;
        if self.config.auto_pong && !self.local_close_sent && self.state == ConnectionState::Open {
            let pong = WsFrame::pong(vstd::slice::slice_to_vec(frame.payload.as_slice()))?;
            self.send_frame(&pong)?;
        }
        self.messages.push_back(WsMessage::Ping(frame.payload));
        proof {
            assert(self.inbox() =~= before.inbox().push(MessageView::Ping(p)));
        }
        Ok(())
    }

    /// A Close frame: the first one is recorded and surfaced; a Close reply
    /// (the peer's code when sendable, else Normal) is queued when none was
    /// sent and auto-reply is on; the state becomes Closed once Close was
    /// sent, else Closing.
    fn handle_close(&mut self, frame: WsFrame) -> (r: WsResult<()>)
        requires
            old(self).wf(),
            old(self).state != ConnectionState::Closed,
        ensures
            final(self).rx() == old(self).rx(),
            close_effect(*old(self), frame.payload@, *final(self), r),
            final(self).queued().len() >= old(self).queued().len(),
            final(self).queued().subrange(0, old(self).queued().len() as int) == old(self).queued(),
    {
        let ghost before = *self;
        let (code, reason) = decode_close_payload(frame.payload.as_slice())?;
        let ghost q = self.messages@;
        if !self.peer_close_received {
            self.peer_close_code = Some(code);
            self.peer_close_reason = Some(reason.clone());
            self.peer_close_received = true;
            self.messages.push_back(WsMessage::Close { code, reason });
            proof {
                assert(self.inbox() =~= before.inbox().push(message_view(self.messages@.last())));
            }
        }
        proof {
            assert(self.messages@.subrange(0, q.len() as int) =~= q);
        }
        if !self.local_close_sent && self.config.auto_close_reply {
            let reply = if code.is_sendable() { code } else { WsCloseCode::Normal };
            proof {
                reveal_strlit("");
                assert(encode_utf8(""@) =~= Seq::<u8>::empty());
            }
            let close_frame = WsFrame::close(Some(reply), "")?;
            self.send_frame(&close_frame)?;
            self.local_close_sent = true;
        }
        self.state = if self.local_close_sent {
            ConnectionState::Closed
        } else {
            ConnectionState::Closing
        };
        Ok(())
    }

    /// Dispatches one received frame; ignored once the connection is closed.
    fn handle_frame(&mut self, frame: WsFrame) -> (r: WsResult<()>)
        requires
            old(self).wf(),
            old(self).error is None,
        ensures
            final(self).rx() == old(self).rx(),
            final(self).role == old(self).role,
            final(self).config == old(self).config,
            final(self).error == old(self).error,
            r is Ok ==> final(self).wf(),
            frame_effect(*old(self), frame.header.fin, frame.header.opcode, frame.payload@, *final(self), r),
            final(self).queued().len() >= old(self).queued().len(),
            final(self).queued().subrange(0, old(self).queued().len() as int) == old(self).queued(),
            old(self).state == ConnectionState::Closed ==> r is Ok && final(self).queued() == old(self).queued()
                && final(self).tx() == old(self).tx() && final(self).same_flags(old(self)),
    {
        if self.state == ConnectionState::Closed {
            proof {
                assert(self.messages@.subrange(0, self.messages@.len() as int) =~= self.messages@);
            }
            return Ok(());
        }
        let ghost q = self.messages@;
        let ghost before = *self;
        let ghost p = frame.payload@;
        match frame.header.opcode {
            WsOpcode::Text | WsOpcode::Binary => self.handle_data_start(frame)?,
            WsOpcode::Continuation => self.handle_continuation(frame)?,
            WsOpcode::Ping => {
                self.handle_ping(frame)?;
                proof {
                    assert(self.messages@.subrange(0, q.len() as int) =~= q);
                }
            },
            WsOpcode::Pong => {
                self.messages.push_back(WsMessage::Pong(frame.payload));
                proof {
                    assert(self.messages@.subrange(0, q.len() as int) =~= q);
                    assert(self.inbox() =~= before.inbox().push(MessageView::Pong(p)));
                }
            },
            WsOpcode::Close => self.handle_close(frame)?,
        }
        Ok(())
    }

    /// Processes buffered frames after the handshake has completed.
    ///
    /// A recorded error is returned again; before the handshake the call
    /// fails with `HandshakeNotComplete`. Otherwise complete frames are
    /// parsed from the front of the receive buffer and handled in order
    /// until more bytes are needed or the connection closes; a failure
    /// fails the connection (see [`Self::fail`]) and is returned.
    pub fn process_frames(&mut self) -> (r: WsResult<IoState>)
        requires
            old(self).wf(),
        ensures
            final(self).wf(),
            frames_processed(*old(self), *final(self), r),
    {
        match &self.error {
            Some(e) => {
                return Err(e.clone());
            },
            None => {},
        }
        if self.state == ConnectionState::Connecting {
            return Err(WsError::HandshakeNotComplete);
        }
        if self.state == ConnectionState::Closed && self.rx_buf.len() == 0 {
            proof {
                assert(self.rx_buf@.subrange(0, 0) =~= self.rx_buf@);
                assert(self.messages@.subrange(0, self.messages@.len() as int) =~= self.messages@);
            }
            return Ok(self.io_state());
        }
        let ghost start_rx = self.rx_buf@;
        let ghost start_q = self.messages@;
        let ghost mut taken: int = 0;
        let ghost mut trace: Seq<CommonState> = seq![*self];
        proof {
            assert(start_rx.subrange(0, start_rx.len() as int) =~= start_rx);
            assert(start_q.subrange(0, start_q.len() as int) =~= start_q);
        }
        loop
            invariant_except_break
                forall|j: int| 1 <= j < trace.len() ==> #[trigger] live_at(trace, j),
            invariant
                self.wf(),
                self.error is None,
                old(self).error is None,
                old(self).state != ConnectionState::Connecting,
                self.role == old(self).role,
                self.config == old(self).config,
                start_rx == old(self).rx_buf@,
                start_q == old(self).messages@,
                0 <= taken <= start_rx.len(),
                self.rx_buf@ == start_rx.subrange(taken, start_rx.len() as int),
                self.messages@.len() >= start_q.len(),
                self.messages@.subrange(0, start_q.len() as int) == start_q,
                trace.len() >= 1,
                trace[0] == *old(self),
                trace[trace.len() - 1] == *self,
                forall|j: int| 0 <= j < trace.len() - 1 ==> #[trigger] step_at(trace, j),
            ensures
                self.wf(),
                self.error is None,
                self.state == ConnectionState::Closed
                    || frame_outcome(self.rx_buf@, self.role, self.config.max_frame_size) == FrameOutcome::NeedMore,
                0 <= taken <= start_rx.len(),
                self.rx_buf@ == start_rx.subrange(taken, start_rx.len() as int),
                self.messages@.len() >= start_q.len(),
                self.messages@.subrange(0, start_q.len() as int) == start_q,
                trace.len() >= 1,
                trace[0] == *old(self),
                trace[trace.len() - 1] == *self,
                forall|j: int| 0 <= j < trace.len() - 1 ==> #[trigger] step_at(trace, j),
                forall|j: int| 1 <= j < trace.len() - 1 ==> #[trigger] live_at(trace, j),
                frame_outcome(self.rx(), self.role, self.config.max_frame_size) == FrameOutcome::NeedMore
                    || (trace.len() >= 2 && self.state == ConnectionState::Closed),
            decreases self.rx_buf@.len(),
        {
            let ghost s0 = *self;
            let parsed = try_parse_frame(self.rx_buf.as_slice(), self.role, self.config.max_frame_size);
            match parsed {
                Ok(Some((frame, consumed))) => {
                    let ghost fin = frame.header.fin;
                    let ghost op = frame.header.opcode;
                    let ghost pl = frame.payload@;
                    let ghost buf = s0.rx();
                    self.consume_rx(consumed);
                    proof {
                        taken = taken + consumed;
                        assert(self.rx_buf@ =~= start_rx.subrange(taken, start_rx.len() as int));
                        assert(self.rx() =~= buf.subrange(spec_header_len(buf) + declared_len(buf), buf.len() as int));
                    }
                    let ghost mid0 = *self;
                    let ghost q_mid = self.messages@;
                    match self.handle_frame(frame) {
                        Ok(()) => {},
                        Err(e) => {
                            let ghost q_now = self.messages@;
                            let ghost after = *self;
                            proof {
                                lemma_effect_ignores_rx(s0, mid0, fin, op, pl, after, Err(e));
                                assert(frame_step(s0, after, Err(e)));
                            }
                            let e2 = self.fail(e);
                            proof {
                                assert(self.messages@.subrange(0, start_q.len() as int) =~= q_now.subrange(0, start_q.len() as int));
                                assert(q_now.subrange(0, q_mid.len() as int).subrange(0, start_q.len() as int) =~= q_now.subrange(0, start_q.len() as int));
                                assert(self.rx() == old(self).rx().subrange(taken, old(self).rx().len() as int));
                                assert(failed_with(after, *self, e2));
                                assert(ran(trace, *old(self), *self, Err(e2)));
                            }
                            return Err(e2);
                        },
                    }
                    proof {
                        assert(self.messages@.subrange(0, q_mid.len() as int).subrange(0, start_q.len() as int)
                            =~= self.messages@.subrange(0, start_q.len() as int));
                        lemma_effect_ignores_rx(s0, mid0, fin, op, pl, *self, Ok(()));
                        assert(frame_step(s0, *self, Ok(())));
                        let old_trace = trace;
                        trace = trace.push(*self);
                        assert forall|j: int| 0 <= j < trace.len() - 1 implies #[trigger] step_at(trace, j) by {
                            if j < old_trace.len() - 1 {
                                assert(step_at(old_trace, j));
                            }
                        }
                        assert forall|j: int| 1 <= j < trace.len() - 1 implies #[trigger] live_at(trace, j) by {
                            assert(live_at(old_trace, j));
                        }
                    }
                    if self.state == ConnectionState::Closed {
                        break;
                    }
                },
                Ok(None) => {
                    proof {
                        assert forall|j: int| 1 <= j < trace.len() - 1 implies #[trigger] live_at(trace, j) by {
                            assert(live_at(trace, j));
                        }
                    }
                    break;
                },
                Err(e) => {
                    proof {
                        assert(parse_error(s0.rx(), s0.role, s0.config.max_frame_size, e));
                    }
                    let e2 = self.fail(e);
                    proof {
                        assert(self.rx() == old(self).rx().subrange(taken, old(self).rx().len() as int));
                        assert(ran(trace, *old(self), *self, Err(e2)));
                    }
                    return Err(e2);
                },
            }
        }
        proof {
            assert(self.rx() == old(self).rx().subrange(taken, old(self).rx().len() as int));
        }
        let res = Ok(self.io_state());
        proof {
            assert(ran(trace, *old(self), *self, res));
        }
        res
    }
}

/// What one side sends as a complete data message, the other reads: when
/// the receive buffer of an open connection (no error, no fragmented
/// message, no Close either way) holds exactly the frame a peer encodes
/// for a final Text or Binary message within the limits (masked with a
/// key towards servers, unmasked towards clients; text UTF-8), processing
/// succeeds, consumes the frame, queues that message and changes nothing
/// else of the link.
pub proof fn lemma_data_message_delivered(
    a: CommonState,
    b: CommonState,
    r: WsResult<IoState>,
    op: WsOpcode,
    p: Seq<u8>,
    key: Option<Seq<u8>>,
)
    requires
        a.wf(),
        a.error is None,
        a.state == ConnectionState::Open,
        !a.fragmenting(),
        !a.peer_close_received,
        !a.local_close_sent,
        op == WsOpcode::Text || op == WsOpcode::Binary,
        op == WsOpcode::Text ==> valid_utf8(p),
        sendable_frame(fresh_header(true, op, p.len()), p, a.config.max_frame_size),
        p.len() <= a.config.max_message_size,
        key matches Some(k) ==> k.len() == 4,
        (key is Some) == (a.role == Role::Server),
        a.rx() == encode_frame(fresh_header(true, op, p.len()), p, key),
        frames_processed(a, b, r),
    ensures
        r is Ok,
        b.rx().len() == 0,
        b.inbox() == a.inbox().push(data_view(op, p)),
        same_link(a, b),
{
    let h = fresh_header(true, op, p.len());
    let buf = a.rx();
    lemma_frame_round_trip(h, p, key, a.role, a.config.max_frame_size, seq![]);
    assert(encode_frame(h, p, key) + seq![] =~= buf);
    let t = choose|t: Seq<CommonState>| ran(t, a, b, r);
    assert(ran(t, a, b, r));
    let n = t.len() as int;
    let total = spec_header_len(buf) + declared_len(buf);
    assert(buf.subrange(total, buf.len() as int) =~= Seq::<u8>::empty());
    assert(frame_outcome(Seq::<u8>::empty(), a.role, a.config.max_frame_size) == FrameOutcome::NeedMore);
    if n >= 2 {
        assert(step_at(t, 0));
        let t1 = t[1];
        assert(t1.rx() =~= Seq::<u8>::empty());
        assert(data_frame_effect(a, true, op, p, t1, Ok(())));
        if n >= 3 {
            assert(step_at(t, 1));
            assert(false);
        }
        match r {
            Ok(_) => {},
            Err(e) => {
                assert(!parse_error(t1.rx(), t1.role, t1.config.max_frame_size, e));
                assert(false);
            },
        }
    } else {
        match r {
            Ok(_) => {},
            Err(e) => {
                assert(!parse_error(buf, a.role, a.config.max_frame_size, e));
                if exists|mid: CommonState| frame_step(a, mid, Err(e)) && #[trigger] failed_with(mid, b, e) {
                    let mid = choose|mid: CommonState| frame_step(a, mid, Err(e)) && #[trigger] failed_with(mid, b, e);
                    assert(data_frame_effect(a, true, op, p, mid, Err(e)));
                }
                assert(false);
            },
        }
    }
}

/// The text a peer sends as one final Text frame is the text the
/// receiving side queues (see [`lemma_data_message_delivered`]).
pub proof fn lemma_text_delivered(
    a: CommonState,
    b: CommonState,
    r: WsResult<IoState>,
    text: Seq<char>,
    key: Option<Seq<u8>>,
)
    requires
        a.wf(),
        a.error is None,
        a.state == ConnectionState::Open,
        !a.fragmenting(),
        !a.peer_close_received,
        !a.local_close_sent,
        sendable_frame(fresh_header(true, WsOpcode::Text, encode_utf8(text).len()), encode_utf8(text), a.config.max_frame_size),
        encode_utf8(text).len() <= a.config.max_message_size,
        key matches Some(k) ==> k.len() == 4,
        (key is Some) == (a.role == Role::Server),
        a.rx() == encode_frame(fresh_header(true, WsOpcode::Text, encode_utf8(text).len()), encode_utf8(text), key),
        frames_processed(a, b, r),
    ensures
        r is Ok,
        b.rx().len() == 0,
        b.inbox() == a.inbox().push(MessageView::Text(text)),
        same_link(a, b),
{
    encode_utf8_valid_utf8(text);
    encode_utf8_decode_utf8(text);
    lemma_data_message_delivered(a, b, r, WsOpcode::Text, encode_utf8(text), key);
}

/// End to end: the bytes one side queues with `send_text` on an empty
/// transmit buffer (see its contract), received by the peer of the other
/// role on an open connection within its limits, are read there as that
/// text.
pub proof fn lemma_sent_text_read_by_peer(
    sent: Seq<u8>,
    sender: Role,
    text: Seq<char>,
    a: CommonState,
    b: CommonState,
    r: WsResult<IoState>,
)
    requires
        frame_sent(Seq::<u8>::empty(), sent, fresh_header(true, WsOpcode::Text, encode_utf8(text).len()),
            encode_utf8(text), sender),
        a.role != sender,
        a.wf(),
        a.error is None,
        a.state == ConnectionState::Open,
        !a.fragmenting(),
        !a.peer_close_received,
        !a.local_close_sent,
        sendable_frame(fresh_header(true, WsOpcode::Text, encode_utf8(text).len()), encode_utf8(text), a.config.max_frame_size),
        encode_utf8(text).len() <= a.config.max_message_size,
        a.rx() == sent,
        frames_processed(a, b, r),
    ensures
        r is Ok,
        b.rx().len() == 0,
        b.inbox() == a.inbox().push(MessageView::Text(text)),
{
    let h = fresh_header(true, WsOpcode::Text, encode_utf8(text).len());
    let p = encode_utf8(text);
    if sender == Role::Server {
        assert(Seq::<u8>::empty() + encode_frame(h, p, None) =~= encode_frame(h, p, None));
        lemma_text_delivered(a, b, r, text, None);
    } else {
        let k = choose|k: Seq<u8>| k.len() == 4 && sent == #[trigger] (Seq::<u8>::empty() + encode_frame(h, p, Some(k)));
        assert(Seq::<u8>::empty() + encode_frame(h, p, Some(k)) =~= encode_frame(h, p, Some(k)));
        lemma_text_delivered(a, b, r, text, Some(k));
    }
}

/// Handling a frame does not look at the receive buffer.
proof fn lemma_effect_ignores_rx(
    a: CommonState,
    a2: CommonState,
    fin: bool,
    op: WsOpcode,
    p: Seq<u8>,
    b: CommonState,
    r: WsResult<()>,
)
    requires
        a2.same_flags(&a),
        a2.tx() == a.tx(),
        a2.queued() == a.queued(),
        a2.fragment == a.fragment,
    ensures
        frame_effect(a2, fin, op, p, b, r) == frame_effect(a, fin, op, p, b, r),
{
}

/// `b` is `a` with `x` appended to its receive buffer, as `feed` leaves it.
pub open spec fn fed(a: CommonState, b: CommonState, x: Seq<u8>) -> bool {
    &&& b.rx() == a.rx() + x
    &&& b.tx() == a.tx()
    &&& b.queued() == a.queued()
    &&& b.fragment == a.fragment
    &&& b.same_flags(&a)
}

/// `a` and `b` agree on what processing depends on and produces, their
/// receive buffers aside: flags, delivered messages, the message being
/// reassembled, and the number of bytes queued for sending (the bytes
/// themselves for a server; a client masks with keys of its own drawing).
pub open spec fn alike(a: CommonState, b: CommonState) -> bool {
    &&& a.same_flags(&b)
    &&& a.tx().len() == b.tx().len()
    &&& (a.role == Role::Server ==> a.tx() == b.tx())
    &&& a.inbox() == b.inbox()
    &&& a.fragment.opcode == b.fragment.opcode
    &&& (a.fragmenting() ==> a.fragment.data@ == b.fragment.data@)
}

proof fn lemma_sent_alike(o1: Seq<u8>, o2: Seq<u8>, n1: Seq<u8>, n2: Seq<u8>, h: WsFrameHeader, p: Seq<u8>, role: Role)
    requires
        frame_sent(o1, n1, h, p, role),
        frame_sent(o2, n2, h, p, role),
        o1.len() == o2.len(),
        role == Role::Server ==> o1 == o2,
    ensures
        n1.len() == n2.len(),
        role == Role::Server ==> n1 == n2,
{
    if role != Role::Server {
        let k1 = choose|k: Seq<u8>| k.len() == 4 && n1 == #[trigger] (o1 + encode_frame(h, p, Some(k)));
        let k2 = choose|k: Seq<u8>| k.len() == 4 && n2 == #[trigger] (o2 + encode_frame(h, p, Some(k)));
        assert(encode_frame(h, p, Some(k1)).len() == encode_frame(h, p, Some(k2)).len());
    }
}

/// Whether processing ended well, or failed only because a client could
/// not draw a masking key for a reply it had to send.
pub open spec fn ok_or_unlucky(r: WsResult<IoState>, role: Role) -> bool {
    r is Ok || (role == Role::Client && r matches Err(WsError::RandomFailed))
}

/// Every result of `rs` from `lo` to `hi` (excluded) is `Ok`.
pub open spec fn all_ok(rs: Seq<WsResult<IoState>>, lo: int, hi: int) -> bool {
    forall|m: int| lo <= m < hi ==> (#[trigger] rs[m]) is Ok
}

/// Handling the same frame from two alike open states, other than a Close,
/// where the first succeeds: the second succeeds too and leaves an alike
/// open state, unless it is a client that could not draw a masking key.
proof fn lemma_effect_alike(
    a1: CommonState,
    a2: CommonState,
    fin: bool,
    op: WsOpcode,
    p: Seq<u8>,
    b1: CommonState,
    b2: CommonState,
    r2: WsResult<()>,
)
    requires
        alike(a1, a2),
        a1.state == ConnectionState::Open,
        op != WsOpcode::Close,
        frame_effect(a1, fin, op, p, b1, Ok(())),
        frame_effect(a2, fin, op, p, b2, r2),
    ensures
        r2 is Ok ==> alike(b1, b2) && b1.state == ConnectionState::Open,
        r2 is Err ==> a2.role == Role::Client && r2 == Err::<(), WsError>(WsError::RandomFailed),
{
    if op == WsOpcode::Ping && r2 is Ok {
        if a1.config.auto_pong && !a1.local_close_sent {
            lemma_sent_alike(a1.tx(), a2.tx(), b1.tx(), b2.tx(), fresh_header(true, WsOpcode::Pong, p.len()), p, a1.role);
        }
    }
}

/// Handling a frame successfully never brings a connection back to Open,
/// and a Close frame takes it out of Open.
proof fn lemma_effect_leaves_open(a: CommonState, fin: bool, op: WsOpcode, p: Seq<u8>, b: CommonState)
    requires
        frame_effect(a, fin, op, p, b, Ok(())),
        a.state != ConnectionState::Open || op == WsOpcode::Close,
    ensures
        b.state != ConnectionState::Open,
{
}

/// A successful run that ends open went through open states only, none of
/// them handling a Close frame.
proof fn lemma_run_open(t: Seq<CommonState>, a: CommonState, b: CommonState, io: IoState, j: int)
    requires
        ran(t, a, b, Ok(io)),
        b.state == ConnectionState::Open,
        0 <= j < t.len(),
    ensures
        t[j].state == ConnectionState::Open,
        j < t.len() - 1 ==> opcode_of(t[j].rx()[0] % 16).unwrap() != WsOpcode::Close,
    decreases t.len() - j,
{
    if j < t.len() - 1 {
        lemma_run_open(t, a, b, io, j + 1);
        assert(step_at(t, j));
        let buf = t[j].rx();
        let op = opcode_of(buf[0] % 16).unwrap();
        if t[j].state != ConnectionState::Open || op == WsOpcode::Close {
            lemma_effect_leaves_open(t[j], buf[0] >= 128, op, frame_payload(buf), t[j + 1]);
        }
    }
}

/// Processing that finds no complete frame succeeds and changes nothing.
proof fn lemma_process_waits(a: CommonState, b: CommonState, res: WsResult<IoState>)
    requires
        frames_processed(a, b, res),
        a.error is None,
        a.state == ConnectionState::Open,
        frame_outcome(a.rx(), a.role, a.config.max_frame_size) == FrameOutcome::NeedMore,
    ensures
        res is Ok,
        b == a,
{
    let t = choose|t: Seq<CommonState>| ran(t, a, b, res);
    if t.len() >= 2 {
        assert(step_at(t, 0));
    }
}

/// Processing a buffer that holds exactly one frame, from an open state
/// alike the `j`-th state of the run `t` whose next frame it is: the call
/// succeeds and leaves a state alike `t[j + 1]` with nothing left to read,
/// unless it is a client that could not draw a masking key.
proof fn lemma_process_one(
    a: CommonState,
    b: CommonState,
    res: WsResult<IoState>,
    t: Seq<CommonState>,
    j: int,
)
    requires
        frames_processed(a, b, res),
        a.error is None,
        a.state == ConnectionState::Open,
        0 <= j < t.len() - 1,
        step_at(t, j),
        t[j].state == ConnectionState::Open,
        opcode_of(t[j].rx()[0] % 16).unwrap() != WsOpcode::Close,
        alike(t[j], a),
        a.role == t[j].role,
        a.config == t[j].config,
        a.rx() == t[j].rx().subrange(0, frame_len(t[j].rx())),
    ensures
        ok_or_unlucky(res, a.role),
        res is Ok ==> alike(t[j + 1], b) && b.rx() == Seq::<u8>::empty() && b.state == ConnectionState::Open,
{
    let whole = t[j].rx();
    let role = a.role;
    let max = a.config.max_frame_size;
    let n = frame_len(whole);
    lemma_complete_frame_alone(whole, role, max);
    let exact = a.rx();
    let rest = whole.subrange(n, whole.len() as int);
    assert(exact + rest =~= whole);
    lemma_complete_frame_extends(exact, role, max, rest);
    let fin = exact[0] >= 128;
    let op = opcode_of(exact[0] % 16).unwrap();
    let pl = frame_payload(exact);
    let r = choose|r: Seq<CommonState>| ran(r, a, b, res);
    if r.len() >= 2 {
        assert(step_at(r, 0));
        assert(r[1].rx() =~= Seq::<u8>::empty());
        if r.len() > 2 {
            assert(step_at(r, 1));
        }
        lemma_effect_alike(t[j], a, fin, op, pl, t[j + 1], r[1], Ok(()));
        if res is Err {
            let e = res->Err_0;
            let last = r[r.len() - 1];
            if exists|mid: CommonState| frame_step(last, mid, Err(e)) && #[trigger] failed_with(mid, b, e) {
                let mid = choose|mid: CommonState| frame_step(last, mid, Err(e)) && #[trigger] failed_with(mid, b, e);
                assert(frame_step(last, mid, Err(e)));
            }
        }
    } else {
        let e = res->Err_0;
        let mid = choose|mid: CommonState| frame_step(a, mid, Err(e)) && #[trigger] failed_with(mid, b, e);
        lemma_effect_alike(t[j], a, fin, op, pl, t[j + 1], mid, Err(e));
    }
}

/// Feeding bytes one at a time, processing after each, against feeding
/// them all at once and processing once, when that single processing
/// succeeds and leaves the connection open. Each one-byte processing
/// succeeds as well, save that a client may fail for want of a masking key
/// for a Pong (never a server); when all of them succeed, both end alike:
/// the same messages are delivered, the same bytes are left unread, the
/// same number of bytes is queued for sending, and the flags and
/// reassembly state agree.
pub proof fn lemma_byte_by_byte(
    a: CommonState,
    bytes: Seq<u8>,
    whole_fed: CommonState,
    whole: CommonState,
    whole_io: IoState,
    fed_states: Seq<CommonState>,
    states: Seq<CommonState>,
    results: Seq<WsResult<IoState>>,
)
    requires
        a.error is None,
        a.state == ConnectionState::Open,
        frame_outcome(a.rx(), a.role, a.config.max_frame_size) == FrameOutcome::NeedMore,
        fed(a, whole_fed, bytes),
        frames_processed(whole_fed, whole, Ok(whole_io)),
        whole.state == ConnectionState::Open,
        states.len() == bytes.len() + 1,
        fed_states.len() == bytes.len(),
        results.len() == bytes.len(),
        states[0] == a,
        forall|i: int| 0 <= i < bytes.len() ==> fed(#[trigger] states[i], fed_states[i], seq![bytes[i]]),
        forall|i: int| 0 <= i < bytes.len() ==> frames_processed(#[trigger] fed_states[i], states[i + 1], results[i]),
    ensures
        forall|k: int| 0 <= k < bytes.len() && all_ok(results, 0, k) ==> ok_or_unlucky(#[trigger] results[k], a.role),
        a.role == Role::Server ==> all_ok(results, 0, bytes.len() as int),
        all_ok(results, 0, bytes.len() as int) ==> alike(states[bytes.len() as int], whole)
            && states[bytes.len() as int].rx() == whole.rx(),
{
    let t = choose|t: Seq<CommonState>| ran(t, whole_fed, whole, Ok(whole_io));
    let s = whole_fed.rx();
    let role = a.role;
    let max = a.config.max_frame_size;
    assert(t[0] == whole_fed);
    assert(s.subrange(0, s.len() as int) =~= s);
    assert(s.subrange(0, a.rx().len() as int) =~= a.rx());
    if t.len() > 1 {
        assert(step_at(t, 0));
        if frame_len(s) <= a.rx().len() {
            lemma_complete_frame_alone(s, role, max);
            let head = s.subrange(0, frame_len(s));
            let more = s.subrange(frame_len(s), a.rx().len() as int);
            assert(head + more =~= a.rx());
            lemma_complete_frame_extends(head, role, max, more);
        }
    }
    lemma_byte_by_byte_from(a, bytes, whole_fed, whole, whole_io, fed_states, states, results, t, 0, 0);
}

/// The step of [`lemma_byte_by_byte`]: after `i` bytes the fed-one-by-one
/// state is alike the `j`-th state of the all-at-once run and holds the
/// start of that state's unread bytes, short of its next frame.
proof fn lemma_byte_by_byte_from(
    a: CommonState,
    bytes: Seq<u8>,
    whole_fed: CommonState,
    whole: CommonState,
    whole_io: IoState,
    fed_states: Seq<CommonState>,
    states: Seq<CommonState>,
    results: Seq<WsResult<IoState>>,
    t: Seq<CommonState>,
    i: int,
    j: int,
)
    requires
        a.error is None,
        a.state == ConnectionState::Open,
        fed(a, whole_fed, bytes),
        ran(t, whole_fed, whole, Ok(whole_io)),
        whole.state == ConnectionState::Open,
        states.len() == bytes.len() + 1,
        fed_states.len() == bytes.len(),
        results.len() == bytes.len(),
        forall|k: int| 0 <= k < bytes.len() ==> fed(#[trigger] states[k], fed_states[k], seq![bytes[k]]),
        forall|k: int| 0 <= k < bytes.len() ==> frames_processed(#[trigger] fed_states[k], states[k + 1], results[k]),
        0 <= i <= bytes.len(),
        0 <= j < t.len(),
        ({
            let s = whole_fed.rx();
            let c = s.len() - t[j].rx().len();
            let pos = a.rx().len() + i;
            &&& 0 <= c <= pos
            &&& t[j].rx() == s.subrange(c, s.len() as int)
            &&& states[i].rx() == s.subrange(c, pos)
            &&& alike(t[j], states[i])
            &&& states[i].role == whole_fed.role
            &&& states[i].config == whole_fed.config
            &&& states[i].error is None
            &&& frame_outcome(states[i].rx(), whole_fed.role, whole_fed.config.max_frame_size) == FrameOutcome::NeedMore
            &&& (j < t.len() - 1 ==> pos < c + frame_len(t[j].rx()))
        }),
    ensures
        forall|k: int| i <= k < bytes.len() && all_ok(results, i, k) ==> ok_or_unlucky(#[trigger] results[k], a.role),
        a.role == Role::Server ==> all_ok(results, i, bytes.len() as int),
        all_ok(results, i, bytes.len() as int) ==> alike(states[bytes.len() as int], whole)
            && states[bytes.len() as int].rx() == whole.rx(),
    decreases bytes.len() - i,
{
    let s = whole_fed.rx();
    let c = s.len() - t[j].rx().len();
    let pos = a.rx().len() + i;
    let role = whole_fed.role;
    let max = whole_fed.config.max_frame_size;
    lemma_run_open(t, whole_fed, whole, whole_io, j);
    assert(t[0] == whole_fed);
    if j < t.len() - 1 {
        assert(step_at(t, j));
    }
    if i == bytes.len() {
        assert(pos == s.len());
        assert(states[i].rx() =~= t[j].rx());
        if j < t.len() - 1 {
            lemma_complete_frame_alone(t[j].rx(), role, max);
            assert(false);
        }
        assert(t[j] == whole);
    } else {
        let f = fed_states[i];
        let nx = states[i + 1];
        let res = results[i];
        assert(fed(states[i], f, seq![bytes[i]]));
        assert(frames_processed(f, nx, res));
        assert(s =~= a.rx() + bytes);
        assert(s[pos] == bytes[i]);
        assert(f.rx() =~= s.subrange(c, pos + 1));
        let tr = t[j].rx();
        assert(f.rx() =~= tr.subrange(0, pos + 1 - c));
        if j < t.len() - 1 && pos + 1 == c + frame_len(tr) {
            lemma_process_one(f, nx, res, t, j);
            if res is Ok {
                assert(t[j + 1].rx() == tr.subrange(frame_len(tr), tr.len() as int));
                assert(t[j + 1].rx() =~= s.subrange(pos + 1, s.len() as int));
                assert(nx.rx() =~= s.subrange(pos + 1, pos + 1));
                if j + 1 < t.len() - 1 {
                    assert(step_at(t, j + 1));
                }
                lemma_byte_by_byte_from(a, bytes, whole_fed, whole, whole_io, fed_states, states, results, t, i + 1, j + 1);
            }
        } else {
            if j < t.len() - 1 {
                lemma_complete_frame_prefix(tr, role, max, pos + 1 - c);
            } else {
                assert(t[j] == whole);
                lemma_need_more_prefix(tr, role, max, pos + 1 - c);
            }
            lemma_process_waits(f, nx, res);
            lemma_byte_by_byte_from(a, bytes, whole_fed, whole, whole_io, fed_states, states, results, t, i + 1, j);
        }
        assert forall|k: int| i <= k < bytes.len() && all_ok(results, i, k) implies ok_or_unlucky(#[trigger] results[k], a.role) by {
            if k > i {
                assert(results[i] is Ok);
                assert(all_ok(results, i + 1, k));
            }
        }
        if res is Ok {
            if all_ok(results, i + 1, bytes.len() as int) {
                assert(all_ok(results, i, bytes.len() as int));
            }
            if all_ok(results, i, bytes.len() as int) {
                assert(all_ok(results, i + 1, bytes.len() as int));
            }
        } else {
            assert(!all_ok(results, i, bytes.len() as int));
        }
    }
}

} // verus!
