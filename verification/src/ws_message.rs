//! Application-facing WebSocket messages (RFC 6455 §6): the unit delivered
//! to and accepted from the application after frame reassembly. Control
//! frames the stack handles itself are still surfaced.

use vstd::prelude::*;
use crate::ws_ids::WsCloseCode;

verus! {

/// A complete WebSocket message after reassembly.
#[derive(Debug, Clone, PartialEq, Eq)]
pub enum WsMessage {
    /// UTF-8 text message.
    Text(String),
    /// Opaque binary message.
    Binary(Vec<u8>),
    /// Ping control frame payload.
    Ping(Vec<u8>),
    /// Pong control frame payload.
    Pong(Vec<u8>),
    /// Close control frame with status code and UTF-8 reason.
    Close {
        /// Status code from the peer (or `NoStatusReceived`).
        code: WsCloseCode,
        /// UTF-8 close reason (may be empty).
        reason: String,
    },
}

impl WsMessage {
    pub open spec fn spec_is_data(&self) -> bool {
        self is Text || self is Binary
    }

    pub open spec fn spec_is_control(&self) -> bool {
        self is Ping || self is Pong || self is Close
    }

    /// Returns `true` for text or binary data messages.
    pub fn is_data(&self) -> (r: bool)
        ensures
            r == self.spec_is_data(),
    {
        matches!(self, WsMessage::Text(_) | WsMessage::Binary(_))
    }

    /// Returns `true` for Ping / Pong / Close control messages.
    pub fn is_control(&self) -> (r: bool)
        ensures
            r == self.spec_is_control(),
    {
        matches!(self, WsMessage::Ping(_) | WsMessage::Pong(_) | WsMessage::Close { .. })
    }

    /// Creates a text message from a string.
    pub fn text(s: &str) -> (m: WsMessage)
        ensures
            m matches WsMessage::Text(t) && t@ == s@,
    {
        WsMessage::Text(String::from_str(s))
    }

    /// Creates a binary message from bytes.
    pub fn binary(b: Vec<u8>) -> (m: WsMessage)
        ensures
            m matches WsMessage::Binary(v) && v@ == b@,
    {
        WsMessage::Binary(b)
    }

    /// Creates a Close message.
    pub fn close(code: WsCloseCode, reason: &str) -> (m: WsMessage)
        ensures
            m matches WsMessage::Close { code: c, reason: r } && c == code && r@ == reason@,
    {
        WsMessage::Close { code, reason: String::from_str(reason) }
    }
}

/// Every message is exactly one of data or control.
pub proof fn lemma_message_classes(m: WsMessage)
    ensures
        m.spec_is_data() != m.spec_is_control(),
{
}

} // verus!
