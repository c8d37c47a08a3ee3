//! Error type shared by the WebSocket modules.

use vstd::prelude::*;
use crate::ws_ids::{WsCloseCode, close_label};
use crate::text::decimal_chars;

verus! {

/// Every failure the WebSocket stack reports.
#[derive(Debug, PartialEq, Eq)]
pub enum WsError {
    /// The peer violated the protocol; the connection fails with `close_code`.
    Protocol { close_code: WsCloseCode, message: String },
    /// A frame or message exceeded a configured limit.
    MessageTooBig { size: usize, limit: usize },
    /// A text payload or close reason was not valid UTF-8.
    InvalidUtf8,
    /// Base64 input could not be decoded.
    Decode(String),
    /// The HTTP opening handshake failed.
    Handshake(String),
    /// The operation is not allowed in the connection's current state.
    InvalidState(String),
    /// Frames were processed before the opening handshake completed.
    HandshakeNotComplete,
    /// The connection is closed.
    Closed,
    /// The operating system's random source failed.
    RandomFailed,
    /// An internal invariant was broken.
    Internal(String),
}

/// Result type of the WebSocket stack.
pub type WsResult<T> = Result<T, WsError>;

/// The close code with which an error fails the connection, if any.
pub open spec fn spec_close_code(e: WsError) -> Option<WsCloseCode> {
    match e {
        WsError::Protocol { close_code, .. } => Some(close_code),
        WsError::InvalidUtf8 => Some(WsCloseCode::InvalidPayloadData),
        WsError::MessageTooBig { .. } => Some(WsCloseCode::MessageTooBig),
        _ => None,
    }
}

/// The human-readable description of an error.
pub open spec fn error_text(e: WsError) -> Seq<char> {
    match e {
        WsError::Protocol { close_code, message } => "protocol error ("@ + decimal_chars(close_code.value() as nat)
            + " ("@ + close_label(close_code) + ")"@ + "): "@ + message@,
        WsError::MessageTooBig { size, limit } => "message too big: "@ + decimal_chars(size as nat)
            + " bytes exceeds limit of "@ + decimal_chars(limit as nat),
        WsError::InvalidUtf8 => "invalid UTF-8 payload"@,
        WsError::Decode(m) => "decode error: "@ + m@,
        WsError::Handshake(m) => "handshake failed: "@ + m@,
        WsError::InvalidState(m) => "invalid state: "@ + m@,
        WsError::HandshakeNotComplete => "handshake not complete"@,
        WsError::Closed => "connection closed"@,
        WsError::RandomFailed => "random number generation failed"@,
        WsError::Internal(m) => "internal error: "@ + m@,
    }
}

/// `e` is an invalid-state error with the message `m`.
pub open spec fn invalid_state_with(e: WsError, m: Seq<char>) -> bool {
    e matches WsError::InvalidState(s) && s@ == m
}

/// Two errors carry the same variant, numbers and text.
pub open spec fn same_error(a: WsError, b: WsError) -> bool {
    match (a, b) {
        (WsError::Protocol { close_code: c1, message: m1 }, WsError::Protocol { close_code: c2, message: m2 }) =>
            c1 == c2 && m1@ == m2@,
        (WsError::MessageTooBig { size: s1, limit: l1 }, WsError::MessageTooBig { size: s2, limit: l2 }) =>
            s1 == s2 && l1 == l2,
        (WsError::InvalidUtf8, WsError::InvalidUtf8) => true,
        (WsError::Decode(m1), WsError::Decode(m2)) => m1@ == m2@,
        (WsError::Handshake(m1), WsError::Handshake(m2)) => m1@ == m2@,
        (WsError::InvalidState(m1), WsError::InvalidState(m2)) => m1@ == m2@,
        (WsError::HandshakeNotComplete, WsError::HandshakeNotComplete) => true,
        (WsError::Closed, WsError::Closed) => true,
        (WsError::RandomFailed, WsError::RandomFailed) => true,
        (WsError::Internal(m1), WsError::Internal(m2)) => m1@ == m2@,
        _ => false,
    }
}

impl Clone for WsError {
    fn clone(&self) -> (r: WsError)
        ensures
            same_error(r, *self),
    {
        match self {
            WsError::Protocol { close_code, message } => WsError::Protocol { close_code: *close_code, message: message.clone() },
            WsError::MessageTooBig { size, limit } => WsError::MessageTooBig { size: *size, limit: *limit },
            WsError::InvalidUtf8 => WsError::InvalidUtf8,
            WsError::Decode(m) => WsError::Decode(m.clone()),
            WsError::Handshake(m) => WsError::Handshake(m.clone()),
            WsError::InvalidState(m) => WsError::InvalidState(m.clone()),
            WsError::HandshakeNotComplete => WsError::HandshakeNotComplete,
            WsError::Closed => WsError::Closed,
            WsError::RandomFailed => WsError::RandomFailed,
            WsError::Internal(m) => WsError::Internal(m.clone()),
        }
    }
}

impl WsError {
    /// A protocol error with `close_code` and `message`.
    pub fn protocol(close_code: WsCloseCode, message: &str) -> (e: WsError)
        ensures
            e matches WsError::Protocol { close_code: c, message: m } && c == close_code && m@ == message@,
    {
        WsError::Protocol { close_code, message: String::from_str(message) }
    }

    /// A handshake error with `message`.
    pub fn handshake(message: &str) -> (e: WsError)
        ensures
            e matches WsError::Handshake(m) && m@ == message@,
    {
        WsError::Handshake(String::from_str(message))
    }

    /// A decoding error with `message`.
    pub fn decode(message: &str) -> (e: WsError)
        ensures
            e matches WsError::Decode(m) && m@ == message@,
    {
        WsError::Decode(String::from_str(message))
    }

    /// An invalid-state error with `message`.
    pub fn invalid_state(message: &str) -> (e: WsError)
        ensures
            e matches WsError::InvalidState(m) && m@ == message@,
    {
        WsError::InvalidState(String::from_str(message))
    }

    /// The close code with which this error fails the connection, if any.
    pub fn close_code(&self) -> (r: Option<WsCloseCode>)
        ensures
            r == spec_close_code(*self),
    {
        match self {
            WsError::Protocol { close_code, .. } => Some(*close_code),
            WsError::InvalidUtf8 => Some(WsCloseCode::InvalidPayloadData),
            WsError::MessageTooBig { .. } => Some(WsCloseCode::MessageTooBig),
            _ => None,
        }
    }

    /// Human-readable description of the error.
    pub fn to_display_string(&self) -> (s: String)
        ensures
            s@ == error_text(*self),
    {
        match self {
            WsError::Protocol { close_code, message } => {
                let mut s = String::from_str("protocol error (");
                s.append(close_code.to_display_string().as_str());
                s.append("): ");
                s.append(message.as_str());
                s
            },
            WsError::MessageTooBig { size, limit } => {
                let mut s = String::from_str("message too big: ");
                s.append(crate::text::decimal_string(*size as u64).as_str());
                s.append(" bytes exceeds limit of ");
                s.append(crate::text::decimal_string(*limit as u64).as_str());
                s
            },
            WsError::InvalidUtf8 => String::from_str("invalid UTF-8 payload"),
            WsError::Decode(m) => {
                let mut s = String::from_str("decode error: ");
                s.append(m.as_str());
                s
            },
            WsError::Handshake(m) => {
                let mut s = String::from_str("handshake failed: ");
                s.append(m.as_str());
                s
            },
            WsError::InvalidState(m) => {
                let mut s = String::from_str("invalid state: ");
                s.append(m.as_str());
                s
            },
            WsError::HandshakeNotComplete => String::from_str("handshake not complete"),
            WsError::Closed => String::from_str("connection closed"),
            WsError::RandomFailed => String::from_str("random number generation failed"),
            WsError::Internal(m) => {
                let mut s = String::from_str("internal error: ");
                s.append(m.as_str());
                s
            },
        }
    }
}

} // verus!
