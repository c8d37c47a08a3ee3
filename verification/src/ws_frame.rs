//! WebSocket frame encode / decode (RFC 6455 §5).
//!
//! Byte 0 holds FIN, RSV1–3 and the 4-bit opcode; byte 1 holds the MASK bit
//! and a 7-bit length: 0–125 inline, 126 announces a 16-bit length, 127 a
//! 64-bit length whose most significant bit is 0. Lengths use the shortest
//! form. A 4-byte masking key follows when MASK is set, then the payload.

use vstd::prelude::*;
use vstd::utf8::*;
use crate::outside::{fill_random, string_from_utf8};
use crate::ws_error::{WsError, WsResult};
use crate::ws_ids::{
    MAX_CONTROL_PAYLOAD, Role, WsCloseCode, WsOpcode, close_code_of, is_protocol_error, opcode_of, opcode_error_text, protocol_error_with,
    close_code_error_text,
};
use crate::ws_utf8::validate_utf8;
use crate::text::decimal_chars;

verus! {

broadcast use vstd::seq::group_seq_axioms;

/// Parsed frame header (without payload bytes).
#[derive(Debug, Clone, PartialEq, Eq)]
pub struct WsFrameHeader {
    /// FIN bit — final fragment of the message.
    pub fin: bool,
    /// RSV1 bit — must be 0 unless an extension is negotiated.
    pub rsv1: bool,
    /// RSV2 bit — must be 0 unless an extension is negotiated.
    pub rsv2: bool,
    /// RSV3 bit — must be 0 unless an extension is negotiated.
    pub rsv3: bool,
    /// Frame opcode.
    pub opcode: WsOpcode,
    /// Whether a masking key follows the length field.
    pub masked: bool,
    /// Payload length in bytes.
    pub payload_len: u64,
    /// Masking key when `masked` is true.
    pub mask_key: Option<[u8; 4]>,
    /// Total header size in bytes (2 + extended length + optional mask).
    pub header_len: usize,
}

/// Big-endian value of a byte sequence.
pub open spec fn be_value(s: Seq<u8>) -> nat
    decreases s.len(),
{
    if s.len() == 0 {
        0
    } else {
        be_value(s.drop_last()) * 256 + (s.last() as nat)
    }
}

/// The `n` big-endian bytes of `v` (its low `8 * n` bits).
pub open spec fn be_bytes(v: nat, n: nat) -> Seq<u8>
    decreases n,
{
    if n == 0 {
        seq![]
    } else {
        be_bytes(v / 256, (n - 1) as nat).push((v % 256) as u8)
    }
}

pub open spec fn pow256(n: nat) -> nat
    decreases n,
{
    if n == 0 {
        1
    } else {
        256 * pow256((n - 1) as nat)
    }
}

/// What a header parse comes to for a buffer.
pub enum HeaderOutcome {
    /// More bytes are needed.
    NeedMore,
    /// The header breaks the protocol (1002).
    Protocol,
    /// The declared payload exceeds the frame limit.
    TooBig(u64),
    /// A complete header.
    Done,
}

/// Number of extended length bytes announced by the 7-bit length.
pub open spec fn ext_len(len7: int) -> int {
    if len7 <= 125 {
        0
    } else if len7 == 126 {
        2
    } else {
        8
    }
}

/// The declared payload length of a buffer holding the length field.
pub open spec fn declared_len(buf: Seq<u8>) -> nat {
    let len7 = buf[1] % 128;
    if len7 <= 125 {
        len7 as nat
    } else if len7 == 126 {
        be_value(buf.subrange(2, 4))
    } else {
        be_value(buf.subrange(2, 10))
    }
}

pub open spec fn spec_header_len(buf: Seq<u8>) -> int {
    2 + ext_len((buf[1] % 128) as int) + if buf[1] >= 128 { 4int } else { 0int }
}

/// The outcome of parsing a header from the front of `buf`.
pub open spec fn header_outcome(buf: Seq<u8>, max: usize) -> HeaderOutcome {
    if buf.len() < 2 {
        HeaderOutcome::NeedMore
    } else if opcode_of(buf[0] % 16) is None {
        HeaderOutcome::Protocol
    } else if buf[1] % 128 == 126 && buf.len() < 4 {
        HeaderOutcome::NeedMore
    } else if buf[1] % 128 == 126 && be_value(buf.subrange(2, 4)) <= 125 {
        HeaderOutcome::Protocol
    } else if buf[1] % 128 == 127 && buf.len() < 10 {
        HeaderOutcome::NeedMore
    } else if buf[1] % 128 == 127 && be_value(buf.subrange(2, 10)) >= 0x8000_0000_0000_0000 {
        HeaderOutcome::Protocol
    } else if buf[1] % 128 == 127 && be_value(buf.subrange(2, 10)) <= 0xffff {
        HeaderOutcome::Protocol
    } else if declared_len(buf) > max {
        HeaderOutcome::TooBig(declared_len(buf) as u64)
    } else if opcode_of(buf[0] % 16).unwrap().spec_is_control() && buf[0] < 128 {
        HeaderOutcome::Protocol
    } else if opcode_of(buf[0] % 16).unwrap().spec_is_control() && declared_len(buf) > 125 {
        HeaderOutcome::Protocol
    } else if buf.len() < spec_header_len(buf) {
        HeaderOutcome::NeedMore
    } else {
        HeaderOutcome::Done
    }
}

/// Why the header at the front of `buf` is refused, when
/// [`header_outcome`] says it is.
pub open spec fn header_error_text(buf: Seq<u8>) -> Seq<char> {
    let len7 = buf[1] % 128;
    if opcode_of(buf[0] % 16) is None {
        opcode_error_text(buf[0] % 16)
    } else if len7 == 126 && be_value(buf.subrange(2, 4)) <= 125 {
        "non-minimal 16-bit payload length"@
    } else if len7 == 127 && be_value(buf.subrange(2, 10)) >= 0x8000_0000_0000_0000 {
        "64-bit payload length has MSB set"@
    } else if len7 == 127 && be_value(buf.subrange(2, 10)) <= 0xffff {
        "non-minimal 64-bit payload length"@
    } else if buf[0] < 128 {
        "control frames must not be fragmented"@
    } else {
        "control frame payload exceeds 125 bytes"@
    }
}

/// `h` is the header held at the front of `buf`.
pub open spec fn header_matches(buf: Seq<u8>, h: WsFrameHeader) -> bool {
    let hl = spec_header_len(buf);
    &&& h.fin == (buf[0] >= 128)
    &&& h.rsv1 == ((buf[0] / 64) % 2 == 1)
    &&& h.rsv2 == ((buf[0] / 32) % 2 == 1)
    &&& h.rsv3 == ((buf[0] / 16) % 2 == 1)
    &&& opcode_of(buf[0] % 16) == Some(h.opcode)
    &&& h.masked == (buf[1] >= 128)
    &&& h.payload_len == declared_len(buf)
    &&& h.header_len == hl
    &&& (h.masked ==> (h.mask_key matches Some(k) && k@ == buf.subrange(hl - 4, hl)))
    &&& (!h.masked ==> h.mask_key is None)
}

proof fn lemma_be_value_bound(s: Seq<u8>)
    ensures
        be_value(s) < pow256(s.len()),
    decreases s.len(),
{
    if s.len() > 0 {
        lemma_be_value_bound(s.drop_last());
    }
}

fn read_be(buf: &[u8], start: usize, n: usize) -> (r: u64)
    requires
        start + n <= buf@.len(),
        n <= 8,
    ensures
        r == be_value(buf@.subrange(start as int, start + n)),
{
    let mut acc: u64 = 0;
    let mut k: usize = 0;
    let total = buf.len();
    while k < n
        invariant
            total == buf@.len(),
            k <= n <= 8,
            start + n <= buf@.len(),
            acc == be_value(buf@.subrange(start as int, start + k)),
        decreases n - k,
    {
        proof {
            let s = buf@.subrange(start as int, start + k);
            lemma_be_value_bound(s);
            assert(pow256(k as nat) <= pow256(7)) by {
                lemma_pow256_mono(k as nat, 7);
            }
            assert(pow256(7) == 0x100_0000_0000_0000) by {
                reveal_with_fuel(pow256, 8);
            }
            assert(acc < 0x100_0000_0000_0000);
            assert(acc * 256 + 255 <= 0xffff_ffff_ffff_ffff);
            assert(buf@.subrange(start as int, start + k + 1).drop_last() =~= s);
        }
        let byte = buf[start + k] as u64;
        let shifted = acc * 256;
        acc = shifted + byte;
        k = k + 1;
    }
    acc
}

proof fn lemma_pow256_mono(a: nat, b: nat)
    requires
        a <= b,
    ensures
        pow256(a) <= pow256(b),
    decreases b,
{
    if a < b {
        lemma_pow256_mono(a, (b - 1) as nat);
    }
}

impl WsFrameHeader {
    /// Attempts to parse a frame header from the start of `buf`; `Ok(None)`
    /// when `buf` does not yet hold a complete header.
    pub fn parse(buf: &[u8], max_frame_size: usize) -> (r: WsResult<Option<WsFrameHeader>>)
        ensures
            match header_outcome(buf@, max_frame_size) {
                HeaderOutcome::NeedMore => r == Ok::<Option<WsFrameHeader>, WsError>(None),
                HeaderOutcome::Protocol => r matches Err(e) && protocol_error_with(e, header_error_text(buf@)),
                HeaderOutcome::TooBig(size) => r == Err::<Option<WsFrameHeader>, WsError>(
                    WsError::MessageTooBig { size: size as usize, limit: max_frame_size },
                ),
                HeaderOutcome::Done => r matches Ok(Some(h)) && header_matches(buf@, h),
            },
    {
        if buf.len() < 2 {
            return Ok(None);
        }
        let b0 = buf[0];
        let b1 = buf[1];
        let fin = b0 >= 128;
        let rsv1 = (b0 / 64) % 2 == 1;
        let rsv2 = (b0 / 32) % 2 == 1;
        let rsv3 = (b0 / 16) % 2 == 1;
        let opcode = WsOpcode::from_u8(b0 % 16)?;
        let masked = b1 >= 128;
        let len7 = b1 % 128;
        let payload_len: u64;
        let len_bytes: usize;
        if len7 <= 125 {
            payload_len = len7 as u64;
            len_bytes = 0;
        } else if len7 == 126 {
            if buf.len() < 4 {
                return Ok(None);
            }
            let len = read_be(buf, 2, 2);
            if len <= 125 {
                return Err(WsError::protocol(WsCloseCode::ProtocolError, "non-minimal 16-bit payload length"));
            }
            payload_len = len;
            len_bytes = 2;
        } else {
            if buf.len() < 10 {
                return Ok(None);
            }
            let len = read_be(buf, 2, 8);
            if len >= 0x8000_0000_0000_0000 {
                return Err(WsError::protocol(WsCloseCode::ProtocolError, "64-bit payload length has MSB set"));
            }
            if len <= 0xffff {
                return Err(WsError::protocol(WsCloseCode::ProtocolError, "non-minimal 64-bit payload length"));
            }
            payload_len = len;
            len_bytes = 8;
        }
        if payload_len > max_frame_size as u64 {
            return Err(WsError::MessageTooBig { size: payload_len as usize, limit: max_frame_size });
        }
        if opcode.is_control() {
            if !fin {
                return Err(WsError::protocol(WsCloseCode::ProtocolError, "control frames must not be fragmented"));
            }
            if payload_len > MAX_CONTROL_PAYLOAD as u64 {
                return Err(WsError::protocol(WsCloseCode::ProtocolError, "control frame payload exceeds 125 bytes"));
            }
        }
        let mask_bytes: usize = if masked { 4 } else { 0 };
        let header_len = 2 + len_bytes + mask_bytes;
        if buf.len() < header_len {
            return Ok(None);
        }
        let mask_key = if masked {
            let start = 2 + len_bytes;
            let key = [buf[start], buf[start + 1], buf[start + 2], buf[start + 3]];
            proof {
                assert(key@ =~= buf@.subrange(start as int, start + 4));
            }
            Some(key)
        } else {
            None
        };
        Ok(Some(WsFrameHeader { fin, rsv1, rsv2, rsv3, opcode, masked, payload_len, mask_key, header_len }))
    }

    /// Total size of this frame on the wire (header + payload), or `None`
    /// when it does not fit in `usize`.
    pub fn frame_len(&self) -> (r: Option<usize>)
        ensures
            (self.payload_len as usize) + self.header_len <= usize::MAX ==> r == Some(
                ((self.payload_len as usize) + self.header_len) as usize,
            ),
            (self.payload_len as usize) + self.header_len > usize::MAX ==> r is None,
    {
        (self.payload_len as usize).checked_add(self.header_len)
    }

    /// Rejects non-zero RSV bits when no extensions are negotiated.
    pub fn check_rsv_clear(&self) -> (r: WsResult<()>)
        ensures
            r is Ok <==> !(self.rsv1 || self.rsv2 || self.rsv3),
            r matches Err(e) ==> protocol_error_with(e, "RSV bits must be 0 without negotiated extensions"@),
    {
        if self.rsv1 || self.rsv2 || self.rsv3 {
            return Err(WsError::protocol(WsCloseCode::ProtocolError, "RSV bits must be 0 without negotiated extensions"));
        }
        Ok(())
    }

    /// Enforces the masking rules for `role` (RFC 6455 §5.1): servers
    /// receive masked frames, clients unmasked ones.
    pub fn check_masking(&self, role: Role) -> (r: WsResult<()>)
        ensures
            r is Ok <==> self.masked == (role == Role::Server),
            r matches Err(e) ==> protocol_error_with(e, masking_error_text(role)),
    {
        let expected = role.expects_inbound_masked();
        if self.masked != expected {
            let msg = if expected {
                "server received an unmasked frame"
            } else {
                "client received a masked frame"
            };
            return Err(WsError::protocol(WsCloseCode::ProtocolError, msg));
        }
        Ok(())
    }
}

/// Why the frame at the front of `buf` is refused, when [`frame_outcome`]
/// says it breaks the protocol.
pub open spec fn frame_error_text(buf: Seq<u8>, role: Role, max: usize) -> Seq<char> {
    if header_outcome(buf, max) == HeaderOutcome::Protocol {
        header_error_text(buf)
    } else if (buf[0] / 64) % 2 == 1 || (buf[0] / 32) % 2 == 1 || (buf[0] / 16) % 2 == 1 {
        "RSV bits must be 0 without negotiated extensions"@
    } else {
        masking_error_text(role)
    }
}

/// Why a Close payload cannot be built from `code` and `reason`.
pub open spec fn close_payload_error_text(code: Option<WsCloseCode>) -> Seq<char> {
    match code {
        None => "Close reason requires a status code"@,
        Some(c) => if !c.spec_is_sendable() {
            "close code "@ + decimal_chars(c.value() as nat) + " must not be sent on the wire"@
        } else {
            "Close reason exceeds control frame limit"@
        },
    }
}

/// Why a Close payload is refused as a protocol error.
pub open spec fn close_decode_error_text(payload: Seq<u8>) -> Seq<char> {
    if payload.len() == 1 {
        "Close payload must be empty or at least 2 bytes"@
    } else {
        close_code_error_text(be_value(payload.subrange(0, 2)) as u16)
    }
}

/// Why a frame breaks the masking rule of the receiving `role`.
pub open spec fn masking_error_text(role: Role) -> Seq<char> {
    if role == Role::Server {
        "server received an unmasked frame"@
    } else {
        "client received a masked frame"@
    }
}

/// A fully decoded (and unmasked) WebSocket frame.
#[derive(Debug, Clone, PartialEq, Eq)]
pub struct WsFrame {
    /// Frame header metadata.
    pub header: WsFrameHeader,
    /// Unmasked payload bytes.
    pub payload: Vec<u8>,
}

/// The header that `WsFrame::new` gives a frame.
pub open spec fn fresh_header(fin: bool, opcode: WsOpcode, len: nat) -> WsFrameHeader {
    WsFrameHeader {
        fin,
        rsv1: false,
        rsv2: false,
        rsv3: false,
        opcode,
        masked: false,
        payload_len: len as u64,
        mask_key: None,
        header_len: 0,
    }
}

/// The bytes of a payload XORed with a repeating 4-byte key.
pub open spec fn masked(data: Seq<u8>, key: Seq<u8>) -> Seq<u8> {
    Seq::new(data.len(), |i: int| data[i] ^ key[i % 4])
}

/// First header byte for a frame.
pub open spec fn first_byte(h: WsFrameHeader) -> u8 {
    (h.opcode.wire() + (if h.fin { 128int } else { 0int }) + (if h.rsv1 { 64int } else { 0int })
        + (if h.rsv2 { 32int } else { 0int }) + (if h.rsv3 { 16int } else { 0int })) as u8
}

/// The length field (byte 1 and extended length) for a payload length.
pub open spec fn length_field(len: nat, mask_bit: int) -> Seq<u8> {
    if len <= 125 {
        seq![(mask_bit + len) as u8]
    } else if len <= 0xffff {
        seq![(mask_bit + 126) as u8] + be_bytes(len, 2)
    } else {
        seq![(mask_bit + 127) as u8] + be_bytes(len, 8)
    }
}

/// The wire encoding of a frame with header `h` and `payload`, masked with
/// `key` when one is given.
pub open spec fn encode_frame(h: WsFrameHeader, payload: Seq<u8>, key: Option<Seq<u8>>) -> Seq<u8> {
    match key {
        Some(k) => seq![first_byte(h)] + length_field(payload.len(), 128) + k + masked(payload, k),
        None => seq![first_byte(h)] + length_field(payload.len(), 0) + payload,
    }
}

/// Applying the same mask twice restores the data.
pub proof fn lemma_mask_involution(data: Seq<u8>, key: Seq<u8>)
    requires
        key.len() == 4,
    ensures
        masked(masked(data, key), key) == data,
{
    assert forall|i: int| 0 <= i < data.len() implies #[trigger] masked(masked(data, key), key)[i] == data[i] by {
        let x = data[i];
        let k = key[i % 4];
        assert((x ^ k) ^ k == x) by (bit_vector);
    }
    assert(masked(masked(data, key), key) =~= data);
}

fn push_be(out: &mut Vec<u8>, v: u64, n: usize)
    requires
        n <= 8,
    ensures
        final(out)@ == old(out)@ + be_bytes(v as nat, n as nat),
    decreases n,
{
    if n > 0 {
        push_be(out, v / 256, n - 1);
        out.push((v % 256) as u8);
        proof {
            assert(final(out)@ =~= old(out)@ + be_bytes(v as nat, n as nat));
        }
    }
}

/// XORs `data` in place with the repeating key (RFC 6455 §5.3); the same
/// call both masks and unmasks.
pub fn apply_mask(data: &mut Vec<u8>, key: [u8; 4])
    ensures
        final(data)@ == masked(old(data)@, key@),
{
    let n = data.len();
    let mut i: usize = 0;
    while i < n
        invariant
            n == data@.len(),
            n == old(data)@.len(),
            i <= n,
            forall|j: int| 0 <= j < i ==> data@[j] == #[trigger] masked(old(data)@, key@)[j],
            forall|j: int| i <= j < n ==> data@[j] == old(data)@[j],
        decreases n - i,
    {
        let b = data[i] ^ key[i % 4];
        data.set(i, b);
        i = i + 1;
    }
    proof {
        assert(data@ =~= masked(old(data)@, key@));
    }
}

/// Draws a fresh random 32-bit masking key from the operating system.
pub fn random_mask_key() -> (r: WsResult<[u8; 4]>)
    ensures
        r is Err ==> r == Err::<[u8; 4], WsError>(WsError::RandomFailed),
{
    let mut key: Vec<u8> = vec![0u8, 0u8, 0u8, 0u8];
    match fill_random(&mut key) {
        Ok(()) => Ok([key[0], key[1], key[2], key[3]]),
        Err(_) => Err(WsError::RandomFailed),
    }
}

impl WsFrame {
    /// Creates a data or control frame ready for encoding.
    pub fn new(fin: bool, opcode: WsOpcode, payload: Vec<u8>) -> (f: WsFrame)
        ensures
            f.header == fresh_header(fin, opcode, payload@.len()),
            f.payload@ == payload@,
    {
        let len = payload.len() as u64;
        WsFrame {
            header: WsFrameHeader {
                fin,
                rsv1: false,
                rsv2: false,
                rsv3: false,
                opcode,
                masked: false,
                payload_len: len,
                mask_key: None,
                header_len: 0,
            },
            payload,
        }
    }

    /// A final text frame.
    pub fn text(payload: Vec<u8>) -> (f: WsFrame)
        ensures
            f.header == fresh_header(true, WsOpcode::Text, payload@.len()),
            f.payload@ == payload@,
    {
        WsFrame::new(true, WsOpcode::Text, payload)
    }

    /// A final binary frame.
    pub fn binary(payload: Vec<u8>) -> (f: WsFrame)
        ensures
            f.header == fresh_header(true, WsOpcode::Binary, payload@.len()),
            f.payload@ == payload@,
    {
        WsFrame::new(true, WsOpcode::Binary, payload)
    }

    /// A Close frame with optional code and reason.
    pub fn close(code: Option<WsCloseCode>, reason: &str) -> (r: WsResult<WsFrame>)
        ensures
            match close_payload(code, encode_utf8(reason@)) {
                Some(p) => r matches Ok(f) && f.header == fresh_header(true, WsOpcode::Close, p.len())
                    && f.payload@ == p,
                None => r matches Err(e) && protocol_error_with(e, close_payload_error_text(code)),
            },
    {
        let payload = encode_close_payload(code, reason)?;
        Ok(WsFrame::new(true, WsOpcode::Close, payload))
    }

    /// A Ping frame; the payload may hold at most 125 bytes.
    pub fn ping(payload: Vec<u8>) -> (r: WsResult<WsFrame>)
        ensures
            payload@.len() <= 125 ==> (r matches Ok(f) && f.header == fresh_header(true, WsOpcode::Ping, payload@.len())
                && f.payload@ == payload@),
            payload@.len() > 125 ==> (r matches Err(e) && protocol_error_with(e, "ping payload exceeds 125 bytes"@)),
    {
        if payload.len() > MAX_CONTROL_PAYLOAD {
            return Err(WsError::protocol(WsCloseCode::ProtocolError, "ping payload exceeds 125 bytes"));
        }
        Ok(WsFrame::new(true, WsOpcode::Ping, payload))
    }

    /// A Pong frame; the payload may hold at most 125 bytes.
    pub fn pong(payload: Vec<u8>) -> (r: WsResult<WsFrame>)
        ensures
            payload@.len() <= 125 ==> (r matches Ok(f) && f.header == fresh_header(true, WsOpcode::Pong, payload@.len())
                && f.payload@ == payload@),
            payload@.len() > 125 ==> (r matches Err(e) && protocol_error_with(e, "pong payload exceeds 125 bytes"@)),
    {
        if payload.len() > MAX_CONTROL_PAYLOAD {
            return Err(WsError::protocol(WsCloseCode::ProtocolError, "pong payload exceeds 125 bytes"));
        }
        Ok(WsFrame::new(true, WsOpcode::Pong, payload))
    }

    /// Appends this frame's wire encoding to `out`, masking the payload
    /// with `mask_key` when one is given (clients pass a fresh random key,
    /// servers `None`).
    pub fn encode(&self, out: &mut Vec<u8>, mask_key: Option<[u8; 4]>) -> (r: WsResult<()>)
        ensures
            r is Ok,
            final(out)@ == old(out)@ + encode_frame(self.header, self.payload@, match mask_key {
                Some(k) => Some(k@),
                None => None,
            }),
    {
        let len = self.payload.len();
        let b0 = header_first_byte(&self.header);
        out.push(b0);
        let mask_bit: u8 = if mask_key.is_some() { 128 } else { 0 };
        push_length_field(out, len, mask_bit);
        match mask_key {
            Some(key) => {
                let ghost a = out@;
                push_all(out, &key);
                let mut body: Vec<u8> = vstd::slice::slice_to_vec(self.payload.as_slice());
                apply_mask(&mut body, key);
                push_all(out, body.as_slice());
                proof {
                    assert(final(out)@ =~= old(out)@ + encode_frame(self.header, self.payload@, Some(key@)));
                }
            },
            None => {
                push_all(out, self.payload.as_slice());
                proof {
                    assert(final(out)@ =~= old(out)@ + encode_frame(self.header, self.payload@, None));
                }
            },
        }
        Ok(())
    }
}

fn header_first_byte(h: &WsFrameHeader) -> (b: u8)
    ensures
        b == first_byte(*h),
{
    let mut b0 = h.opcode.as_u8();
    if h.fin {
        b0 = b0 + 128;
    }
    if h.rsv1 {
        b0 = b0 + 64;
    }
    if h.rsv2 {
        b0 = b0 + 32;
    }
    if h.rsv3 {
        b0 = b0 + 16;
    }
    b0
}

fn push_length_field(out: &mut Vec<u8>, len: usize, mask_bit: u8)
    requires
        mask_bit == 0 || mask_bit == 128,
    ensures
        final(out)@ == old(out)@ + length_field(len as nat, mask_bit as int),
{
    if len <= 125 {
        out.push(mask_bit + (len as u8));
        proof {
            assert(final(out)@ =~= old(out)@ + length_field(len as nat, mask_bit as int));
        }
    } else if len <= 0xffff {
        out.push(mask_bit + 126);
        push_be(out, len as u64, 2);
        proof {
            assert(final(out)@ =~= old(out)@ + length_field(len as nat, mask_bit as int));
        }
    } else {
        out.push(mask_bit + 127);
        push_be(out, len as u64, 8);
        proof {
            assert(final(out)@ =~= old(out)@ + length_field(len as nat, mask_bit as int));
        }
    }
}

pub(crate) fn push_all(out: &mut Vec<u8>, bytes: &[u8])
    ensures
        final(out)@ == old(out)@ + bytes@,
{
    let mut j: usize = 0;
    while j < bytes.len()
        invariant
            j <= bytes@.len(),
            out@ == old(out)@ + bytes@.subrange(0, j as int),
        decreases bytes@.len() - j,
    {
        out.push(bytes[j]);
        j = j + 1;
        proof {
            assert(out@ =~= old(out)@ + bytes@.subrange(0, j as int));
        }
    }
    proof {
        assert(bytes@.subrange(0, bytes@.len() as int) =~= bytes@);
    }
}

/// The Close payload for an optional code and reason bytes, or `None` when
/// that combination cannot be sent (a reason without code, a code that
/// must not appear on the wire, or more than 123 reason bytes).
pub open spec fn close_payload(code: Option<WsCloseCode>, reason: Seq<u8>) -> Option<Seq<u8>> {
    match code {
        None => if reason.len() == 0 { Some(seq![]) } else { None },
        Some(c) => if !c.spec_is_sendable() || reason.len() + 2 > 125 {
            None
        } else {
            Some(be_bytes(c.value() as nat, 2) + reason)
        },
    }
}

/// Encodes an optional Close status code and UTF-8 reason into a payload.
pub fn encode_close_payload(code: Option<WsCloseCode>, reason: &str) -> (r: WsResult<Vec<u8>>)
    ensures
        match close_payload(code, encode_utf8(reason@)) {
            Some(p) => r matches Ok(v) && v@ == p,
            None => r matches Err(e) && protocol_error_with(e, close_payload_error_text(code)),
        },
{
    match code {
        None => {
            if reason.is_empty() {
                Ok(Vec::new())
            } else {
                Err(WsError::protocol(WsCloseCode::ProtocolError, "Close reason requires a status code"))
            }
        },
        Some(c) => {
            if !c.is_sendable() {
                let mut message = String::from_str("close code ");
                message.append(crate::text::decimal_string(c.as_u16() as u64).as_str());
                message.append(" must not be sent on the wire");
                return Err(WsError::Protocol { close_code: WsCloseCode::ProtocolError, message });
            }
            let reason_bytes = reason.as_bytes();
            if reason_bytes.len() > MAX_CONTROL_PAYLOAD - 2 {
                return Err(WsError::protocol(WsCloseCode::ProtocolError, "Close reason exceeds control frame limit"));
            }
            let mut payload: Vec<u8> = Vec::new();
            push_be(&mut payload, c.as_u16() as u64, 2);
            push_all(&mut payload, reason_bytes);
            Ok(payload)
        },
    }
}

/// What decoding a Close payload gives: `None` for a protocol error,
/// `Some(None)` when the reason is not UTF-8, else the code and reason bytes.
pub open spec fn close_decode(payload: Seq<u8>) -> Option<Option<(WsCloseCode, Seq<u8>)>> {
    if payload.len() == 0 {
        Some(Some((WsCloseCode::NoStatusReceived, seq![])))
    } else if payload.len() == 1 {
        None
    } else {
        match close_code_of(be_value(payload.subrange(0, 2)) as u16) {
            None => None,
            Some(c) => {
                let reason = payload.subrange(2, payload.len() as int);
                if valid_utf8(reason) {
                    Some(Some((c, reason)))
                } else {
                    Some(None)
                }
            },
        }
    }
}

/// Decodes a Close frame payload into `(code, reason)`: an empty payload
/// yields `(NoStatusReceived, "")`, a single byte or a code that may not
/// appear on the wire is a protocol error, and the reason must be UTF-8.
pub fn decode_close_payload(payload: &[u8]) -> (r: WsResult<(WsCloseCode, String)>)
    ensures
        match close_decode(payload@) {
            None => r matches Err(e) && protocol_error_with(e, close_decode_error_text(payload@)),
            Some(None) => r == Err::<(WsCloseCode, String), WsError>(WsError::InvalidUtf8),
            Some(Some((c, reason))) => r matches Ok((c2, s)) && c2 == c && s@ == decode_utf8(reason),
        },
{
    if payload.len() == 0 {
        return Ok((WsCloseCode::NoStatusReceived, String::new()));
    }
    if payload.len() == 1 {
        return Err(WsError::protocol(WsCloseCode::ProtocolError, "Close payload must be empty or at least 2 bytes"));
    }
    let raw = read_be(payload, 0, 2);
    proof {
        lemma_be_value_bound(payload@.subrange(0, 2));
    }
    let code = WsCloseCode::from_u16(raw as u16)?;
    let reason_bytes = vstd::slice::slice_to_vec(slice_from(payload, 2));
    validate_utf8(reason_bytes.as_slice())?;
    let reason = string_from_utf8(reason_bytes);
    Ok((code, reason))
}

fn slice_from(s: &[u8], start: usize) -> (r: &[u8])
    requires
        start <= s@.len(),
    ensures
        r@ == s@.subrange(start as int, s@.len() as int),
{
    &s[start..s.len()]
}

/// What parsing one frame from the front of a buffer comes to.
pub enum FrameOutcome {
    NeedMore,
    Protocol,
    TooBig(u64, usize),
    Done,
}

pub open spec fn frame_outcome(buf: Seq<u8>, role: Role, max: usize) -> FrameOutcome {
    match header_outcome(buf, max) {
        HeaderOutcome::NeedMore => FrameOutcome::NeedMore,
        HeaderOutcome::Protocol => FrameOutcome::Protocol,
        HeaderOutcome::TooBig(s) => FrameOutcome::TooBig(s, 0),
        HeaderOutcome::Done => {
            let rsv = (buf[0] / 64) % 2 == 1 || (buf[0] / 32) % 2 == 1 || (buf[0] / 16) % 2 == 1;
            if rsv || (buf[1] >= 128) != (role == Role::Server) {
                FrameOutcome::Protocol
            } else if (declared_len(buf) as u64 as usize) + spec_header_len(buf) > usize::MAX {
                FrameOutcome::TooBig(0, 1)
            } else if buf.len() < (declared_len(buf) as u64 as usize) + spec_header_len(buf) {
                FrameOutcome::NeedMore
            } else {
                FrameOutcome::Done
            }
        },
    }
}

/// The payload carried by a complete frame at the front of `buf`.
pub open spec fn frame_payload(buf: Seq<u8>) -> Seq<u8> {
    let hl = spec_header_len(buf);
    let body = buf.subrange(hl, hl + declared_len(buf));
    if buf[1] >= 128 {
        masked(body, buf.subrange(hl - 4, hl))
    } else {
        body
    }
}

/// Tries to parse one complete frame from the front of `buf`, returning the
/// unmasked frame and the bytes consumed, or `Ok(None)` when more bytes are
/// needed.
pub fn try_parse_frame(buf: &[u8], role: Role, max_frame_size: usize) -> (r: WsResult<Option<(WsFrame, usize)>>)
    ensures
        match frame_outcome(buf@, role, max_frame_size) {
            FrameOutcome::NeedMore => r == Ok::<Option<(WsFrame, usize)>, WsError>(None),
            FrameOutcome::Protocol => r matches Err(e) && protocol_error_with(e, frame_error_text(buf@, role, max_frame_size)),
            FrameOutcome::TooBig(s, 0) => r == Err::<Option<(WsFrame, usize)>, WsError>(
                WsError::MessageTooBig { size: s as usize, limit: max_frame_size },
            ),
            FrameOutcome::TooBig(_, _) => r == Err::<Option<(WsFrame, usize)>, WsError>(
                WsError::MessageTooBig { size: usize::MAX, limit: max_frame_size },
            ),
            FrameOutcome::Done => r matches Ok(Some((f, n))) && header_matches(buf@, f.header)
                && n == f.header.header_len + declared_len(buf@) && n <= buf@.len()
                && f.payload@ == frame_payload(buf@),
        },
{
    let header = match WsFrameHeader::parse(buf, max_frame_size)? {
        Some(h) => h,
        None => {
            return Ok(None);
        },
    };
    header.check_rsv_clear()?;
    header.check_masking(role)?;
    let total = match header.frame_len() {
        Some(t) => t,
        None => {
            return Err(WsError::MessageTooBig { size: usize::MAX, limit: max_frame_size });
        },
    };
    if buf.len() < total {
        return Ok(None);
    }
    proof {
        assert(declared_len(buf@) <= max_frame_size);
        assert(header.payload_len as usize == header.payload_len);
    }
    let mut payload = vstd::slice::slice_to_vec(slice_range(buf, header.header_len, total));
    match header.mask_key {
        Some(key) => {
            apply_mask(&mut payload, key);
        },
        None => {},
    }
    let consumed = total;
    Ok(Some((WsFrame { header, payload }, consumed)))
}

fn slice_range(s: &[u8], start: usize, end: usize) -> (r: &[u8])
    requires
        start <= end <= s@.len(),
    ensures
        r@ == s@.subrange(start as int, end as int),
{
    &s[start..end]
}

proof fn lemma_be_round_trip(v: nat, n: nat)
    requires
        v < pow256(n),
    ensures
        be_bytes(v, n).len() == n,
        be_value(be_bytes(v, n)) == v,
    decreases n,
{
    if n > 0 {
        lemma_be_round_trip(v / 256, (n - 1) as nat);
        assert(be_bytes(v, n).drop_last() =~= be_bytes(v / 256, (n - 1) as nat));
    }
}

/// Well-formed frames a sender produces: reserved bits clear, control
/// frames final with at most 125 payload bytes, payload within the
/// receiver's limit and below 2^63 bytes.
pub open spec fn sendable_frame(h: WsFrameHeader, payload: Seq<u8>, max: usize) -> bool {
    &&& !h.rsv1 && !h.rsv2 && !h.rsv3
    &&& (h.opcode.spec_is_control() ==> h.fin && payload.len() <= 125)
    &&& payload.len() <= max
    &&& payload.len() < 0x8000_0000_0000_0000
    &&& payload.len() + 14 <= usize::MAX
}

proof fn lemma_pow256_values()
    ensures
        pow256(2) == 0x1_0000,
        pow256(8) == 0x1_0000_0000_0000_0000,
{
    reveal_with_fuel(pow256, 9);
}

proof fn lemma_first_byte(h: WsFrameHeader)
    requires
        !h.rsv1 && !h.rsv2 && !h.rsv3,
    ensures
        first_byte(h) % 16 == h.opcode.wire(),
        (first_byte(h) >= 128) == h.fin,
        (first_byte(h) / 64) % 2 == 0,
        (first_byte(h) / 32) % 2 == 0,
        (first_byte(h) / 16) % 2 == 0,
{
}

proof fn lemma_encoded_header(h: WsFrameHeader, payload: Seq<u8>, key: Option<Seq<u8>>, rest: Seq<u8>)
    requires
        key matches Some(k) ==> k.len() == 4,
        payload.len() < 0x8000_0000_0000_0000,
    ensures
        ({
            let enc = encode_frame(h, payload, key);
            let buf = enc + rest;
            let len = payload.len();
            let len7 = buf[1] % 128;
            &&& buf.len() >= 2
            &&& buf[0] == first_byte(h)
            &&& (buf[1] >= 128) == (key is Some)
            &&& (len <= 125 ==> len7 == len)
            &&& (125 < len <= 0xffff ==> len7 == 126 && buf.len() >= 4 && be_value(buf.subrange(2, 4)) == len)
            &&& (len > 0xffff ==> len7 == 127 && buf.len() >= 10 && be_value(buf.subrange(2, 10)) == len)
            &&& declared_len(buf) == len
            &&& spec_header_len(buf) + len == enc.len()
            &&& (key matches Some(k) ==> buf.subrange(spec_header_len(buf) - 4, spec_header_len(buf)) == k
                && buf.subrange(spec_header_len(buf), spec_header_len(buf) + len) == masked(payload, k))
            &&& (key is None ==> buf.subrange(spec_header_len(buf), spec_header_len(buf) + len) == payload)
        }),
{
    let enc = encode_frame(h, payload, key);
    let buf = enc + rest;
    let len = payload.len();
    let b0 = first_byte(h);
    let mask_bit: int = if key is Some { 128 } else { 0 };
    let lf = length_field(len, mask_bit);
    let ext: int = if len <= 125 { 0 } else if len <= 0xffff { 2 } else { 8 };
    lemma_pow256_values();
    if len > 125 && len <= 0xffff {
        lemma_be_round_trip(len, 2);
    } else if len > 0xffff {
        lemma_be_round_trip(len, 8);
    }
    assert(lf.len() == 1 + ext);
    let klen: int = if key is Some { 4 } else { 0 };
    let hl = 2 + ext + klen;
    match key {
        Some(k) => {
            assert(enc =~= seq![b0] + lf + k + masked(payload, k));
            assert(buf.subrange(hl - 4, hl) =~= k);
            assert(buf.subrange(hl, hl + len) =~= masked(payload, k));
        },
        None => {
            assert(enc =~= seq![b0] + lf + payload);
            assert(buf.subrange(hl, hl + len) =~= payload);
        },
    }
    assert(buf[0] == b0);
    assert(buf[1] == lf[0]);
    if len > 125 && len <= 0xffff {
        assert(buf.subrange(2, 4) =~= be_bytes(len, 2));
    } else if len > 0xffff {
        assert(buf.subrange(2, 10) =~= be_bytes(len, 8));
    }
    assert(spec_header_len(buf) == hl);
}

/// Round trip: a frame encoded by one role (clients with a key, servers
/// without) is parsed by the other role into the same final bit, opcode,
/// mask flag, masking key, length and payload, consuming exactly the
/// encoded bytes whatever follows them.
#[verifier::rlimit(50)]
pub proof fn lemma_frame_round_trip(
    h: WsFrameHeader,
    payload: Seq<u8>,
    key: Option<Seq<u8>>,
    receiver: Role,
    max: usize,
    rest: Seq<u8>,
)
    requires
        sendable_frame(h, payload, max),
        key matches Some(k) ==> k.len() == 4,
        (key is Some) == (receiver == Role::Server),
    ensures
        ({
            let buf = encode_frame(h, payload, key) + rest;
            &&& frame_outcome(buf, receiver, max) == FrameOutcome::Done
            &&& spec_header_len(buf) + declared_len(buf) == encode_frame(h, payload, key).len()
            &&& frame_payload(buf) == payload
            &&& opcode_of(buf[0] % 16) == Some(h.opcode)
            &&& (buf[0] >= 128) == h.fin
            &&& (buf[1] >= 128) == (key is Some)
            &&& declared_len(buf) == payload.len()
            &&& (key matches Some(k) ==> buf.subrange(spec_header_len(buf) - 4, spec_header_len(buf)) == k)
            &&& (buf[0] / 64) % 2 == 0 && (buf[0] / 32) % 2 == 0 && (buf[0] / 16) % 2 == 0
        }),
{
    let enc = encode_frame(h, payload, key);
    let buf = enc + rest;
    lemma_first_byte(h);
    lemma_encoded_header(h, payload, key, rest);
    crate::ws_ids::lemma_opcode_round_trip(h.opcode);
    assert(opcode_of(buf[0] % 16) == Some(h.opcode));
    assert(header_outcome(buf, max) == HeaderOutcome::Done);
    assert(declared_len(buf) as u64 as usize == payload.len());
    assert(frame_outcome(buf, receiver, max) == FrameOutcome::Done);
    match key {
        Some(k) => {
            lemma_mask_involution(payload, k);
        },
        None => {},
    }
}

/// Every strict prefix of an encoded frame asks for more bytes: the frame
/// is only reported once all of it has arrived.
#[verifier::rlimit(50)]
pub proof fn lemma_frame_prefix_needs_more(
    h: WsFrameHeader,
    payload: Seq<u8>,
    key: Option<Seq<u8>>,
    receiver: Role,
    max: usize,
    k: int,
)
    requires
        sendable_frame(h, payload, max),
        key matches Some(kk) ==> kk.len() == 4,
        (key is Some) == (receiver == Role::Server),
        0 <= k < encode_frame(h, payload, key).len(),
    ensures
        frame_outcome(encode_frame(h, payload, key).subrange(0, k), receiver, max) == FrameOutcome::NeedMore,
{
    let enc = encode_frame(h, payload, key);
    let p = enc.subrange(0, k);
    let rest = Seq::<u8>::empty();
    lemma_frame_round_trip(h, payload, key, receiver, max, rest);
    lemma_encoded_header(h, payload, key, rest);
    assert(enc + rest =~= enc);
    let len = payload.len();
    let hl = spec_header_len(enc);
    if k >= 2 {
        assert(p[0] == enc[0]);
        assert(p[1] == enc[1]);
        if enc[1] % 128 == 126 && k >= 4 {
            assert(p.subrange(2, 4) =~= enc.subrange(2, 4));
        }
        if enc[1] % 128 == 127 && k >= 10 {
            assert(p.subrange(2, 10) =~= enc.subrange(2, 10));
        }
        if k >= hl {
            assert(declared_len(p) == declared_len(enc));
            assert(spec_header_len(p) == hl);
        }
    }
}

/// The number of bytes the complete frame at the front of `buf` occupies.
pub open spec fn frame_len(buf: Seq<u8>) -> int {
    spec_header_len(buf) + declared_len(buf)
}

/// A complete frame is only reported once all of its bytes have arrived:
/// every strict prefix of its bytes asks for more.
#[verifier::rlimit(50)]
pub proof fn lemma_complete_frame_prefix(buf: Seq<u8>, role: Role, max: usize, k: int)
    requires
        frame_outcome(buf, role, max) == FrameOutcome::Done,
        0 <= k < frame_len(buf),
    ensures
        frame_outcome(buf.subrange(0, k), role, max) == FrameOutcome::NeedMore,
{
    let p = buf.subrange(0, k);
    let hl = spec_header_len(buf);
    if k >= 2 {
        assert(p[0] == buf[0]);
        assert(p[1] == buf[1]);
        if buf[1] % 128 == 126 && k >= 4 {
            assert(p.subrange(2, 4) =~= buf.subrange(2, 4));
        }
        if buf[1] % 128 == 127 && k >= 10 {
            assert(p.subrange(2, 10) =~= buf.subrange(2, 10));
        }
        if k >= hl {
            assert(declared_len(p) == declared_len(buf));
            assert(spec_header_len(p) == hl);
        }
    }
}

/// A complete frame parses the same whatever bytes follow it: same header,
/// same length, same payload.
#[verifier::rlimit(50)]
pub proof fn lemma_complete_frame_extends(buf: Seq<u8>, role: Role, max: usize, more: Seq<u8>)
    requires
        frame_outcome(buf, role, max) == FrameOutcome::Done,
    ensures
        ({
            let q = buf + more;
            &&& frame_outcome(q, role, max) == FrameOutcome::Done
            &&& q[0] == buf[0]
            &&& q[1] == buf[1]
            &&& spec_header_len(q) == spec_header_len(buf)
            &&& declared_len(q) == declared_len(buf)
            &&& frame_payload(q) == frame_payload(buf)
            &&& q.subrange(frame_len(buf), q.len() as int) == buf.subrange(frame_len(buf), buf.len() as int) + more
        }),
{
    let q = buf + more;
    let hl = spec_header_len(buf);
    assert(q[0] == buf[0]);
    assert(q[1] == buf[1]);
    if buf[1] % 128 == 126 {
        assert(q.subrange(2, 4) =~= buf.subrange(2, 4));
    }
    if buf[1] % 128 == 127 {
        assert(q.subrange(2, 10) =~= buf.subrange(2, 10));
    }
    assert(declared_len(q) == declared_len(buf));
    assert(spec_header_len(q) == hl);
    let n = frame_len(buf);
    assert(q.subrange(hl, n) =~= buf.subrange(hl, n));
    if buf[1] >= 128 {
        assert(q.subrange(hl - 4, hl) =~= buf.subrange(hl - 4, hl));
    }
    assert(q.subrange(n, q.len() as int) =~= buf.subrange(n, buf.len() as int) + more);
}

/// The bytes of a complete frame, taken alone, parse as that frame.
#[verifier::rlimit(50)]
pub proof fn lemma_complete_frame_alone(buf: Seq<u8>, role: Role, max: usize)
    requires
        frame_outcome(buf, role, max) == FrameOutcome::Done,
    ensures
        frame_len(buf) <= buf.len(),
        frame_outcome(buf.subrange(0, frame_len(buf)), role, max) == FrameOutcome::Done,
        frame_len(buf.subrange(0, frame_len(buf))) == frame_len(buf),
{
    let n = frame_len(buf);
    let p = buf.subrange(0, n);
    let hl = spec_header_len(buf);
    assert(p[0] == buf[0]);
    assert(p[1] == buf[1]);
    if buf[1] % 128 == 126 {
        assert(p.subrange(2, 4) =~= buf.subrange(2, 4));
    }
    if buf[1] % 128 == 127 {
        assert(p.subrange(2, 10) =~= buf.subrange(2, 10));
    }
    assert(declared_len(p) == declared_len(buf));
    assert(spec_header_len(p) == hl);
}

/// When a buffer does not yet hold a whole frame, neither does any prefix
/// of it.
#[verifier::rlimit(50)]
pub proof fn lemma_need_more_prefix(buf: Seq<u8>, role: Role, max: usize, k: int)
    requires
        frame_outcome(buf, role, max) == FrameOutcome::NeedMore,
        0 <= k <= buf.len(),
    ensures
        frame_outcome(buf.subrange(0, k), role, max) == FrameOutcome::NeedMore,
{
    let p = buf.subrange(0, k);
    if k >= 2 {
        assert(p[0] == buf[0]);
        assert(p[1] == buf[1]);
        if buf[1] % 128 == 126 && k >= 4 {
            assert(p.subrange(2, 4) =~= buf.subrange(2, 4));
        }
        if buf[1] % 128 == 127 && k >= 10 {
            assert(p.subrange(2, 10) =~= buf.subrange(2, 10));
        }
        if k >= spec_header_len(buf) {
            assert(declared_len(p) == declared_len(buf));
            assert(spec_header_len(p) == spec_header_len(buf));
        }
    }
}

} // verus!
