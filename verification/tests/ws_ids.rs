use codevar_wsocket::ws_error::WsError;
use codevar_wsocket::ws_ids::{
    DEFAULT_MAX_FRAME_SIZE, DEFAULT_MAX_MESSAGE_SIZE, GUID, MAX_CONTROL_PAYLOAD, Role, VERSION, WsCloseCode, WsOpcode,
};
use std::collections::HashSet;

#[test]
fn protocol_constants_have_expected_values() {
    assert_eq!(VERSION, 13);
    assert_eq!(GUID, "258EAFA5-E914-47DA-95CA-C5AB0DC85B11");
    assert_eq!(GUID.len(), 36);
    assert_eq!(MAX_CONTROL_PAYLOAD, 125);
    assert_eq!(DEFAULT_MAX_FRAME_SIZE, 16 * 1024 * 1024);
    assert_eq!(DEFAULT_MAX_MESSAGE_SIZE, 16 * 1024 * 1024);
    assert_eq!(DEFAULT_MAX_FRAME_SIZE, DEFAULT_MAX_MESSAGE_SIZE);
}

#[test]
fn role_masking_expectations_are_symmetric() {
    assert!(Role::Client.must_mask_outbound());
    assert!(!Role::Client.expects_inbound_masked());
    assert!(!Role::Server.must_mask_outbound());
    assert!(Role::Server.expects_inbound_masked());
}

#[test]
fn role_derives_are_consistent() {
    assert_eq!(Role::Client, Role::Client);
    assert_ne!(Role::Client, Role::Server);
    let mut set = HashSet::new();
    set.insert(Role::Client);
    set.insert(Role::Server);
    set.insert(Role::Client);
    assert_eq!(set.len(), 2);
}

#[test]
fn opcode_from_u8_accepts_defined_values() {
    let expected = [
        (0x0u8, WsOpcode::Continuation),
        (0x1, WsOpcode::Text),
        (0x2, WsOpcode::Binary),
        (0x8, WsOpcode::Close),
        (0x9, WsOpcode::Ping),
        (0xA, WsOpcode::Pong),
    ];
    for (raw, opcode) in expected {
        assert_eq!(WsOpcode::from_u8(raw).unwrap(), opcode, "raw {raw:#x}");
        assert_eq!(opcode.as_u8(), raw);
    }
}

#[test]
fn opcode_from_u8_rejects_reserved_and_out_of_range_values() {
    for raw in [
        0x3u8, 0x4, 0x5, 0x6, 0x7, 0xB, 0xC, 0xD, 0xE, 0xF, 0x10, 0x7F, 0xFF,
    ] {
        let err = WsOpcode::from_u8(raw).unwrap_err();
        assert!(
            matches!(
                err,
                WsError::Protocol {
                    close_code: WsCloseCode::ProtocolError,
                    ..
                }
            ),
            "raw {raw:#x}: {err:?}"
        );
    }
}

#[test]
fn opcode_rejection_messages_distinguish_reserved_ranges() {
    let non_control = match WsOpcode::from_u8(0x3).unwrap_err() {
        WsError::Protocol { message, .. } => message,
        other => format!("unexpected variant: {other:?}"),
    };
    assert!(non_control.contains("reserved non-control"), "{non_control}");

    let control = match WsOpcode::from_u8(0xB).unwrap_err() {
        WsError::Protocol { message, .. } => message,
        other => format!("unexpected variant: {other:?}"),
    };
    assert!(control.contains("reserved control"), "{control}");

    let out_of_range = match WsOpcode::from_u8(0x40).unwrap_err() {
        WsError::Protocol { message, .. } => message,
        other => format!("unexpected variant: {other:?}"),
    };
    assert!(out_of_range.contains("invalid opcode"), "{out_of_range}");
}

#[test]
fn opcode_control_and_data_classification() {
    for opcode in [WsOpcode::Close, WsOpcode::Ping, WsOpcode::Pong] {
        assert!(opcode.is_control(), "{opcode:?}");
        assert!(!opcode.is_data(), "{opcode:?}");
    }
    for opcode in [WsOpcode::Text, WsOpcode::Binary] {
        assert!(opcode.is_data(), "{opcode:?}");
        assert!(!opcode.is_control(), "{opcode:?}");
    }
    assert!(!WsOpcode::Continuation.is_control());
    assert!(!WsOpcode::Continuation.is_data());
}

#[test]
fn opcode_display_and_debug_strings() {
    let expected = [
        (WsOpcode::Continuation, "continuation", "Continuation"),
        (WsOpcode::Text, "text", "Text"),
        (WsOpcode::Binary, "binary", "Binary"),
        (WsOpcode::Close, "close", "Close"),
        (WsOpcode::Ping, "ping", "Ping"),
        (WsOpcode::Pong, "pong", "Pong"),
    ];
    for (opcode, name, debug_name) in expected {
        assert_eq!(opcode.to_display_string(), name);
        assert_eq!(format!("{opcode:?}"), debug_name);
    }
}

#[test]
fn opcode_variants_hash_distinctly() {
    let opcodes = [
        WsOpcode::Continuation,
        WsOpcode::Text,
        WsOpcode::Binary,
        WsOpcode::Close,
        WsOpcode::Ping,
        WsOpcode::Pong,
    ];
    let set: HashSet<WsOpcode> = opcodes.into_iter().collect();
    assert_eq!(set.len(), 6);
    assert!(set.contains(&WsOpcode::Pong));
}

#[test]
fn close_code_from_u16_accepts_valid_codes() {
    let named = [
        (1000u16, WsCloseCode::Normal),
        (1001, WsCloseCode::GoingAway),
        (1002, WsCloseCode::ProtocolError),
        (1003, WsCloseCode::UnsupportedData),
        (1007, WsCloseCode::InvalidPayloadData),
        (1008, WsCloseCode::PolicyViolation),
        (1009, WsCloseCode::MessageTooBig),
        (1010, WsCloseCode::MandatoryExtension),
        (1011, WsCloseCode::InternalError),
    ];
    for (raw, code) in named {
        assert_eq!(WsCloseCode::from_u16(raw).unwrap(), code, "raw {raw}");
    }

    for raw in [1012u16, 1013, 1014, 1016, 3000, 4999] {
        assert_eq!(
            WsCloseCode::from_u16(raw).unwrap(),
            WsCloseCode::Other(raw),
            "raw {raw}"
        );
    }
}

#[test]
fn close_code_from_u16_rejects_reserved_and_forbidden_codes() {
    for raw in [0u16, 1, 999, 1004, 1005, 1006, 1015, 5000, 65535] {
        let err = WsCloseCode::from_u16(raw).unwrap_err();
        assert!(
            matches!(
                err,
                WsError::Protocol {
                    close_code: WsCloseCode::ProtocolError,
                    ..
                }
            ),
            "raw {raw}: {err:?}"
        );
    }
}

#[test]
fn close_code_rejection_messages_carry_the_offending_value() {
    for (raw, needle) in [
        (500u16, "500"),
        (1004u16, "reserved"),
        (1005u16, "1005"),
        (5000u16, "5000"),
    ] {
        let msg = match WsCloseCode::from_u16(raw).unwrap_err() {
            WsError::Protocol { message, .. } => message,
            other => format!("unexpected variant: {other:?}"),
        };
        assert!(msg.contains(needle), "raw {raw}: {msg}");
    }
}

#[test]
fn close_code_as_u16_round_trips_parseable_values() {
    for raw in [
        1000u16, 1001, 1002, 1003, 1007, 1008, 1009, 1010, 1011, 1012, 1013, 1014, 1016, 3000, 4999,
    ] {
        let code = WsCloseCode::from_u16(raw).unwrap();
        assert_eq!(code.as_u16(), raw, "raw {raw}");
    }
}

#[test]
fn close_code_as_u16_exposes_reserved_variants() {
    assert_eq!(WsCloseCode::NoStatusReceived.as_u16(), 1005);
    assert_eq!(WsCloseCode::Abnormal.as_u16(), 1006);
    assert_eq!(WsCloseCode::TlsHandshake.as_u16(), 1015);
    assert_eq!(WsCloseCode::Other(0).as_u16(), 0);
    assert_eq!(WsCloseCode::Other(65535).as_u16(), 65535);
}

#[test]
fn close_code_is_sendable_matrix() {
    assert!(!WsCloseCode::NoStatusReceived.is_sendable());
    assert!(!WsCloseCode::Abnormal.is_sendable());
    assert!(!WsCloseCode::TlsHandshake.is_sendable());
    for code in [
        WsCloseCode::Normal,
        WsCloseCode::GoingAway,
        WsCloseCode::ProtocolError,
        WsCloseCode::UnsupportedData,
        WsCloseCode::InvalidPayloadData,
        WsCloseCode::PolicyViolation,
        WsCloseCode::MessageTooBig,
        WsCloseCode::MandatoryExtension,
        WsCloseCode::InternalError,
        WsCloseCode::Other(3000),
    ] {
        assert!(code.is_sendable(), "{code:?}");
    }
}

#[test]
fn close_code_display_formats_numeric_value_and_label() {
    assert_eq!(WsCloseCode::Normal.to_display_string(), "1000 (normal closure)");
    assert_eq!(WsCloseCode::ProtocolError.to_display_string(), "1002 (protocol error)");
    assert_eq!(WsCloseCode::Abnormal.to_display_string(), "1006 (abnormal closure)");
    assert_eq!(WsCloseCode::Other(3000).to_display_string(), "3000 (other)");
}

#[test]
fn close_code_labels_cover_every_variant() {
    let expected = [
        (WsCloseCode::Normal, "normal closure"),
        (WsCloseCode::GoingAway, "going away"),
        (WsCloseCode::ProtocolError, "protocol error"),
        (WsCloseCode::UnsupportedData, "unsupported data"),
        (WsCloseCode::NoStatusReceived, "no status received"),
        (WsCloseCode::Abnormal, "abnormal closure"),
        (WsCloseCode::InvalidPayloadData, "invalid payload data"),
        (WsCloseCode::PolicyViolation, "policy violation"),
        (WsCloseCode::MessageTooBig, "message too big"),
        (WsCloseCode::MandatoryExtension, "mandatory extension"),
        (WsCloseCode::InternalError, "internal error"),
        (WsCloseCode::TlsHandshake, "TLS handshake"),
        (WsCloseCode::Other(1012), "other"),
    ];
    for (code, label) in expected {
        assert_eq!(code.label(), label, "{code:?}");
    }
}

#[test]
fn close_code_debug_strings_are_variant_names() {
    assert_eq!(format!("{:?}", WsCloseCode::Normal), "Normal");
    assert_eq!(format!("{:?}", WsCloseCode::TlsHandshake), "TlsHandshake");
    assert_eq!(format!("{:?}", WsCloseCode::Other(3000)), "Other(3000)");
}

#[test]
fn close_code_variants_hash_distinctly() {
    let codes = [
        WsCloseCode::Normal,
        WsCloseCode::GoingAway,
        WsCloseCode::ProtocolError,
        WsCloseCode::UnsupportedData,
        WsCloseCode::NoStatusReceived,
        WsCloseCode::Abnormal,
        WsCloseCode::InvalidPayloadData,
        WsCloseCode::PolicyViolation,
        WsCloseCode::MessageTooBig,
        WsCloseCode::MandatoryExtension,
        WsCloseCode::InternalError,
        WsCloseCode::TlsHandshake,
        WsCloseCode::Other(1012),
        WsCloseCode::Other(3000),
    ];
    let set: HashSet<WsCloseCode> = codes.into_iter().collect();
    assert_eq!(set.len(), codes.len());
    assert!(set.contains(&WsCloseCode::Other(1012)));
    assert!(!set.contains(&WsCloseCode::Other(1013)));
}
