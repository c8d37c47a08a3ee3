//! Numeric identifiers, opcodes, close codes, and protocol constants
//! (RFC 6455 §5.2 opcodes, §7.4 status codes, §11.3 handshake semantics).

use vstd::prelude::*;
use crate::text::{decimal_string, decimal_chars};
use crate::ws_error::{WsError, WsResult};

verus! {

/// WebSocket protocol version advertised in `Sec-WebSocket-Version`.
pub const VERSION: u8 = 13;

/// GUID appended to `Sec-WebSocket-Key` when computing `Sec-WebSocket-Accept`.
pub const GUID: &'static str = "258EAFA5-E914-47DA-95CA-C5AB0DC85B11";

/// Default maximum reassembled message size (16 MiB).
pub const DEFAULT_MAX_MESSAGE_SIZE: usize = 16 * 1024 * 1024;

/// Default maximum single-frame payload size (16 MiB).
pub const DEFAULT_MAX_FRAME_SIZE: usize = 16 * 1024 * 1024;

/// Maximum payload length allowed for a control frame (RFC 6455 §5.5).
pub const MAX_CONTROL_PAYLOAD: usize = 125;

/// Endpoint role determining masking rules (RFC 6455 §5.1).
#[derive(Debug, Clone, Copy, PartialEq, Eq, Hash, Structural)]
pub enum Role {
    /// Client: masks all outbound frames, rejects masked inbound frames.
    Client,
    /// Server: never masks outbound frames, rejects unmasked inbound frames.
    Server,
}

impl Role {
    /// Returns `true` when this role must mask outbound frames.
    pub fn must_mask_outbound(self) -> (r: bool)
        ensures
            r == (self == Role::Client),
    {
        matches!(self, Role::Client)
    }

    /// Returns `true` when inbound frames for this role must be masked.
    pub fn expects_inbound_masked(self) -> (r: bool)
        ensures
            r == (self == Role::Server),
    {
        matches!(self, Role::Server)
    }
}

/// Frame opcodes (RFC 6455 §5.2).
#[derive(Debug, Clone, Copy, PartialEq, Eq, Hash, Structural)]
pub enum WsOpcode {
    /// Continuation frame of a fragmented message (`%x0`).
    Continuation,
    /// Text data frame (`%x1`).
    Text,
    /// Binary data frame (`%x2`).
    Binary,
    /// Connection close control frame (`%x8`).
    Close,
    /// Ping control frame (`%x9`).
    Ping,
    /// Pong control frame (`%xA`).
    Pong,
}

/// The opcode that a 4-bit wire value denotes, if any.
pub open spec fn opcode_of(v: u8) -> Option<WsOpcode> {
    if v == 0x0 {
        Some(WsOpcode::Continuation)
    } else if v == 0x1 {
        Some(WsOpcode::Text)
    } else if v == 0x2 {
        Some(WsOpcode::Binary)
    } else if v == 0x8 {
        Some(WsOpcode::Close)
    } else if v == 0x9 {
        Some(WsOpcode::Ping)
    } else if v == 0xA {
        Some(WsOpcode::Pong)
    } else {
        None
    }
}

/// The error returned for every value a parser rejects with 1002.
pub open spec fn is_protocol_error(e: WsError) -> bool {
    e matches WsError::Protocol { close_code, .. } && close_code == WsCloseCode::ProtocolError
}

/// `e` is a protocol error (close code 1002) with the message `m`.
pub open spec fn protocol_error_with(e: WsError, m: Seq<char>) -> bool {
    e matches WsError::Protocol { close_code, message } && close_code == WsCloseCode::ProtocolError && message@ == m
}

/// The lower-case hexadecimal digit of `n` (below 16), as text.
pub open spec fn hex_text(n: int) -> Seq<char> {
    if n < 10 {
        seq![(48 + n) as char]
    } else {
        seq![(87 + n) as char]
    }
}

/// Why an opcode value is refused.
pub open spec fn opcode_error_text(v: u8) -> Seq<char> {
    let prefix = if 3 <= v && v <= 7 {
        "reserved non-control opcode 0x"@
    } else if 11 <= v && v <= 15 {
        "reserved control opcode 0x"@
    } else {
        "invalid opcode 0x"@
    };
    prefix + (if v >= 16 { hex_text(v as int / 16) } else { Seq::<char>::empty() }) + hex_text(v as int % 16)
}

/// Why a close code is refused on the wire.
pub open spec fn close_code_error_text(code: u16) -> Seq<char> {
    if code == 1004 {
        "close code 1004 is reserved"@
    } else if code == 1005 || code == 1006 || code == 1015 {
        "close code "@ + decimal_chars(code as nat) + " must not be sent on the wire"@
    } else if code <= 999 {
        "close code "@ + decimal_chars(code as nat) + " is forbidden (below 1000)"@
    } else {
        "close code "@ + decimal_chars(code as nat) + " is out of range"@
    }
}

impl WsOpcode {
    /// The wire value of the opcode.
    pub open spec fn wire(self) -> u8 {
        match self {
            WsOpcode::Continuation => 0x0,
            WsOpcode::Text => 0x1,
            WsOpcode::Binary => 0x2,
            WsOpcode::Close => 0x8,
            WsOpcode::Ping => 0x9,
            WsOpcode::Pong => 0xA,
        }
    }

    pub open spec fn spec_is_control(self) -> bool {
        self == WsOpcode::Close || self == WsOpcode::Ping || self == WsOpcode::Pong
    }

    pub open spec fn spec_is_data(self) -> bool {
        self == WsOpcode::Text || self == WsOpcode::Binary
    }

    /// Parses an opcode nibble; reserved and out-of-range values are rejected
    /// with a 1002 protocol error.
    pub fn from_u8(v: u8) -> (r: WsResult<WsOpcode>)
        ensures
            match opcode_of(v) {
                Some(op) => r == Ok::<WsOpcode, WsError>(op),
                None => r matches Err(e) && protocol_error_with(e, opcode_error_text(v)),
            },
    {
        match v {
            0x0 => Ok(WsOpcode::Continuation),
            0x1 => Ok(WsOpcode::Text),
            0x2 => Ok(WsOpcode::Binary),
            0x8 => Ok(WsOpcode::Close),
            0x9 => Ok(WsOpcode::Ping),
            0xA => Ok(WsOpcode::Pong),
            _ => {
                let mut message = if 0x3 <= v && v <= 0x7 {
                    String::from_str("reserved non-control opcode 0x")
                } else if 0xB <= v && v <= 0xF {
                    String::from_str("reserved control opcode 0x")
                } else {
                    String::from_str("invalid opcode 0x")
                };
                if v >= 16 {
                    message.append(hex_digit(v / 16));
                }
                message.append(hex_digit(v % 16));
                Err(WsError::Protocol { close_code: WsCloseCode::ProtocolError, message })
            },
        }
    }

    /// Wire value (low 4 bits).
    pub fn as_u8(self) -> (r: u8)
        ensures
            r == self.wire(),
            r < 16,
            opcode_of(r) == Some(self),
    {
        match self {
            WsOpcode::Continuation => 0x0,
            WsOpcode::Text => 0x1,
            WsOpcode::Binary => 0x2,
            WsOpcode::Close => 0x8,
            WsOpcode::Ping => 0x9,
            WsOpcode::Pong => 0xA,
        }
    }

    /// Returns `true` for control opcodes (`Close`, `Ping`, `Pong`).
    pub fn is_control(self) -> (r: bool)
        ensures
            r == self.spec_is_control(),
    {
        matches!(self, WsOpcode::Close | WsOpcode::Ping | WsOpcode::Pong)
    }

    /// Returns `true` for data opcodes (`Text`, `Binary`).
    pub fn is_data(self) -> (r: bool)
        ensures
            r == self.spec_is_data(),
    {
        matches!(self, WsOpcode::Text | WsOpcode::Binary)
    }

    /// Lower-case name of the opcode ("continuation", "text", ...).
    pub fn to_display_string(self) -> (s: String)
        ensures
            s@ == opcode_name(self),
    {
        match self {
            WsOpcode::Continuation => String::from_str("continuation"),
            WsOpcode::Text => String::from_str("text"),
            WsOpcode::Binary => String::from_str("binary"),
            WsOpcode::Close => String::from_str("close"),
            WsOpcode::Ping => String::from_str("ping"),
            WsOpcode::Pong => String::from_str("pong"),
        }
    }
}

/// The name under which an opcode is shown.
pub open spec fn opcode_name(op: WsOpcode) -> Seq<char> {
    match op {
        WsOpcode::Continuation => "continuation"@,
        WsOpcode::Text => "text"@,
        WsOpcode::Binary => "binary"@,
        WsOpcode::Close => "close"@,
        WsOpcode::Ping => "ping"@,
        WsOpcode::Pong => "pong"@,
    }
}

fn hex_digit(n: u8) -> (r: &'static str)
    requires
        n < 16,
    ensures
        r@ == hex_text(n as int),
{
    proof {
        reveal_strlit("0");
        reveal_strlit("1");
        reveal_strlit("2");
        reveal_strlit("3");
        reveal_strlit("4");
        reveal_strlit("5");
        reveal_strlit("6");
        reveal_strlit("7");
        reveal_strlit("8");
        reveal_strlit("9");
        reveal_strlit("a");
        reveal_strlit("b");
        reveal_strlit("c");
        reveal_strlit("d");
        reveal_strlit("e");
        reveal_strlit("f");
    }
    match n {
        0 => "0",
        1 => "1",
        2 => "2",
        3 => "3",
        4 => "4",
        5 => "5",
        6 => "6",
        7 => "7",
        8 => "8",
        9 => "9",
        10 => "a",
        11 => "b",
        12 => "c",
        13 => "d",
        14 => "e",
        _ => "f",
    }
}

/// WebSocket close status codes (RFC 6455 §7.4.1).
#[derive(Debug, Clone, Copy, PartialEq, Eq, Hash, Structural)]
pub enum WsCloseCode {
    /// 1000 — normal closure.
    Normal,
    /// 1001 — endpoint is going away.
    GoingAway,
    /// 1002 — protocol error.
    ProtocolError,
    /// 1003 — unsupported data type.
    UnsupportedData,
    /// 1005 — no status code was present (never sent on the wire).
    NoStatusReceived,
    /// 1006 — abnormal closure (never sent on the wire).
    Abnormal,
    /// 1007 — invalid payload data.
    InvalidPayloadData,
    /// 1008 — policy violation.
    PolicyViolation,
    /// 1009 — message too big.
    MessageTooBig,
    /// 1010 — mandatory extension missing.
    MandatoryExtension,
    /// 1011 — unexpected server condition.
    InternalError,
    /// 1015 — TLS handshake failure (never sent on the wire).
    TlsHandshake,
    /// Application-defined or IANA-registered code in an allowed range.
    Other(u16),
}

/// The close code a 16-bit wire value denotes, if it may appear on the wire.
pub open spec fn close_code_of(code: u16) -> Option<WsCloseCode> {
    if code == 1000 {
        Some(WsCloseCode::Normal)
    } else if code == 1001 {
        Some(WsCloseCode::GoingAway)
    } else if code == 1002 {
        Some(WsCloseCode::ProtocolError)
    } else if code == 1003 {
        Some(WsCloseCode::UnsupportedData)
    } else if code == 1007 {
        Some(WsCloseCode::InvalidPayloadData)
    } else if code == 1008 {
        Some(WsCloseCode::PolicyViolation)
    } else if code == 1009 {
        Some(WsCloseCode::MessageTooBig)
    } else if code == 1010 {
        Some(WsCloseCode::MandatoryExtension)
    } else if code == 1011 {
        Some(WsCloseCode::InternalError)
    } else if (1012 <= code <= 1014) || (1016 <= code <= 4999) {
        Some(WsCloseCode::Other(code))
    } else {
        None
    }
}

impl WsCloseCode {
    /// The numeric value of a close code.
    pub open spec fn value(self) -> u16 {
        match self {
            WsCloseCode::Normal => 1000,
            WsCloseCode::GoingAway => 1001,
            WsCloseCode::ProtocolError => 1002,
            WsCloseCode::UnsupportedData => 1003,
            WsCloseCode::NoStatusReceived => 1005,
            WsCloseCode::Abnormal => 1006,
            WsCloseCode::InvalidPayloadData => 1007,
            WsCloseCode::PolicyViolation => 1008,
            WsCloseCode::MessageTooBig => 1009,
            WsCloseCode::MandatoryExtension => 1010,
            WsCloseCode::InternalError => 1011,
            WsCloseCode::TlsHandshake => 1015,
            WsCloseCode::Other(c) => c,
        }
    }

    /// Codes that may appear in a Close frame body.
    pub open spec fn spec_is_sendable(self) -> bool {
        !(self == WsCloseCode::NoStatusReceived || self == WsCloseCode::Abnormal
            || self == WsCloseCode::TlsHandshake)
    }

    /// Parses a 16-bit status code from a Close frame body. Codes that must
    /// not appear on the wire (0–999, 1004–1006, 1015, 5000 and up) are
    /// rejected with a 1002 protocol error.
    pub fn from_u16(code: u16) -> (r: WsResult<WsCloseCode>)
        ensures
            match close_code_of(code) {
                Some(c) => r == Ok::<WsCloseCode, WsError>(c),
                None => r matches Err(e) && protocol_error_with(e, close_code_error_text(code)),
            },
    {
        match code {
            1000 => Ok(WsCloseCode::Normal),
            1001 => Ok(WsCloseCode::GoingAway),
            1002 => Ok(WsCloseCode::ProtocolError),
            1003 => Ok(WsCloseCode::UnsupportedData),
            1005 | 1006 | 1015 => {
                let mut message = String::from_str("close code ");
                message.append(decimal_string(code as u64).as_str());
                message.append(" must not be sent on the wire");
                Err(WsError::Protocol { close_code: WsCloseCode::ProtocolError, message })
            },
            1007 => Ok(WsCloseCode::InvalidPayloadData),
            1008 => Ok(WsCloseCode::PolicyViolation),
            1009 => Ok(WsCloseCode::MessageTooBig),
            1010 => Ok(WsCloseCode::MandatoryExtension),
            1011 => Ok(WsCloseCode::InternalError),
            1004 => Err(WsError::protocol(WsCloseCode::ProtocolError, "close code 1004 is reserved")),
            0..=999 => {
                let mut message = String::from_str("close code ");
                message.append(decimal_string(code as u64).as_str());
                message.append(" is forbidden (below 1000)");
                Err(WsError::Protocol { close_code: WsCloseCode::ProtocolError, message })
            },
            1012..=1014 | 1016..=4999 => Ok(WsCloseCode::Other(code)),
            _ => {
                let mut message = String::from_str("close code ");
                message.append(decimal_string(code as u64).as_str());
                message.append(" is out of range");
                Err(WsError::Protocol { close_code: WsCloseCode::ProtocolError, message })
            },
        }
    }

    /// Wire value suitable for a Close frame body (reserved codes still map
    /// to their numeric values).
    pub fn as_u16(self) -> (r: u16)
        ensures
            r == self.value(),
    {
        match self {
            WsCloseCode::Normal => 1000,
            WsCloseCode::GoingAway => 1001,
            WsCloseCode::ProtocolError => 1002,
            WsCloseCode::UnsupportedData => 1003,
            WsCloseCode::NoStatusReceived => 1005,
            WsCloseCode::Abnormal => 1006,
            WsCloseCode::InvalidPayloadData => 1007,
            WsCloseCode::PolicyViolation => 1008,
            WsCloseCode::MessageTooBig => 1009,
            WsCloseCode::MandatoryExtension => 1010,
            WsCloseCode::InternalError => 1011,
            WsCloseCode::TlsHandshake => 1015,
            WsCloseCode::Other(c) => c,
        }
    }

    /// Returns `true` when this code may legally appear in a Close frame body.
    pub fn is_sendable(self) -> (r: bool)
        ensures
            r == self.spec_is_sendable(),
    {
        !matches!(self, WsCloseCode::NoStatusReceived | WsCloseCode::Abnormal | WsCloseCode::TlsHandshake)
    }

    /// Short English label for logging and diagnostics.
    pub fn label(self) -> (r: &'static str)
        ensures
            r@ == close_label(self),
    {
        match self {
            WsCloseCode::Normal => "normal closure",
            WsCloseCode::GoingAway => "going away",
            WsCloseCode::ProtocolError => "protocol error",
            WsCloseCode::UnsupportedData => "unsupported data",
            WsCloseCode::NoStatusReceived => "no status received",
            WsCloseCode::Abnormal => "abnormal closure",
            WsCloseCode::InvalidPayloadData => "invalid payload data",
            WsCloseCode::PolicyViolation => "policy violation",
            WsCloseCode::MessageTooBig => "message too big",
            WsCloseCode::MandatoryExtension => "mandatory extension",
            WsCloseCode::InternalError => "internal error",
            WsCloseCode::TlsHandshake => "TLS handshake",
            WsCloseCode::Other(_) => "other",
        }
    }

    /// The numeric value followed by the label in parentheses, e.g.
    /// "1000 (normal closure)".
    pub fn to_display_string(self) -> (s: String)
        ensures
            s@ == decimal_chars(self.value() as nat) + " ("@ + close_label(self) + ")"@,
    {
        let mut s = decimal_string(self.as_u16() as u64);
        s.append(" (");
        s.append(self.label());
        s.append(")");
        s
    }
}

/// The label of a close code.
pub open spec fn close_label(c: WsCloseCode) -> Seq<char> {
    match c {
        WsCloseCode::Normal => "normal closure"@,
        WsCloseCode::GoingAway => "going away"@,
        WsCloseCode::ProtocolError => "protocol error"@,
        WsCloseCode::UnsupportedData => "unsupported data"@,
        WsCloseCode::NoStatusReceived => "no status received"@,
        WsCloseCode::Abnormal => "abnormal closure"@,
        WsCloseCode::InvalidPayloadData => "invalid payload data"@,
        WsCloseCode::PolicyViolation => "policy violation"@,
        WsCloseCode::MessageTooBig => "message too big"@,
        WsCloseCode::MandatoryExtension => "mandatory extension"@,
        WsCloseCode::InternalError => "internal error"@,
        WsCloseCode::TlsHandshake => "TLS handshake"@,
        WsCloseCode::Other(_) => "other"@,
    }
}

/// Every opcode's wire value parses back to the opcode.
pub proof fn lemma_opcode_round_trip(op: WsOpcode)
    ensures
        opcode_of(op.wire()) == Some(op),
{
}

/// A parsed opcode writes back to the value it was parsed from.
pub proof fn lemma_opcode_parse_inverse(v: u8)
    ensures
        opcode_of(v) matches Some(op) ==> op.wire() == v,
{
}

/// Every accepted close code value is the value of the code it parses to,
/// and that code may be sent on the wire.
pub proof fn lemma_close_code_parse_inverse(code: u16)
    ensures
        close_code_of(code) matches Some(c) ==> c.value() == code && c.spec_is_sendable(),
{
}

/// Every sendable close code whose value lies in an accepted range parses
/// back to itself.
pub proof fn lemma_close_code_round_trip(c: WsCloseCode)
    requires
        c.spec_is_sendable(),
        c matches WsCloseCode::Other(v) ==> (1012 <= v <= 1014) || (1016 <= v <= 4999),
    ensures
        close_code_of(c.value()) == Some(c),
{
}

/// A code is data or control or neither (continuation), never both.
pub proof fn lemma_opcode_classes_disjoint(op: WsOpcode)
    ensures
        !(op.spec_is_control() && op.spec_is_data()),
        !op.spec_is_control() && !op.spec_is_data() <==> op == WsOpcode::Continuation,
{
}

} // verus!
