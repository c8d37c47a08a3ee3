use codevar_wsocket::ws_error::WsError;
use codevar_wsocket::ws_ids::WsCloseCode;

#[test]
fn errors_describe_themselves() {
    assert_eq!(
        WsError::protocol(WsCloseCode::ProtocolError, "boom").to_display_string(),
        "protocol error (1002 (protocol error)): boom"
    );
    assert_eq!(
        WsError::MessageTooBig { size: 70000, limit: 65536 }.to_display_string(),
        "message too big: 70000 bytes exceeds limit of 65536"
    );
    assert_eq!(WsError::InvalidUtf8.to_display_string(), "invalid UTF-8 payload");
    assert_eq!(WsError::invalid_state("nope").to_display_string(), "invalid state: nope");
    assert_eq!(WsError::HandshakeNotComplete.to_display_string(), "handshake not complete");
    assert_eq!(WsError::Closed.to_display_string(), "connection closed");
}

#[test]
fn only_protocol_level_errors_carry_a_close_code() {
    assert_eq!(WsError::protocol(WsCloseCode::PolicyViolation, "x").close_code(), Some(WsCloseCode::PolicyViolation));
    assert_eq!(WsError::InvalidUtf8.close_code(), Some(WsCloseCode::InvalidPayloadData));
    assert_eq!(WsError::MessageTooBig { size: 2, limit: 1 }.close_code(), Some(WsCloseCode::MessageTooBig));
    assert_eq!(WsError::Closed.close_code(), None);
    assert_eq!(WsError::handshake("h").close_code(), None);
}
