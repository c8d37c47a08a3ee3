use codevar_wsocket::ws_error::{WsError, WsResult};
use codevar_wsocket::ws_frame::{
    WsFrame, WsFrameHeader, apply_mask, decode_close_payload, encode_close_payload, random_mask_key, try_parse_frame,
};
use codevar_wsocket::ws_ids::{DEFAULT_MAX_FRAME_SIZE, Role, WsCloseCode, WsOpcode};

fn parse_header(buf: &[u8]) -> WsResult<Option<WsFrameHeader>> {
    WsFrameHeader::parse(buf, DEFAULT_MAX_FRAME_SIZE)
}

fn parse_client(buf: &[u8]) -> WsResult<Option<(WsFrame, usize)>> {
    try_parse_frame(buf, Role::Client, DEFAULT_MAX_FRAME_SIZE)
}

fn parse_server(buf: &[u8]) -> WsResult<Option<(WsFrame, usize)>> {
    try_parse_frame(buf, Role::Server, DEFAULT_MAX_FRAME_SIZE)
}

fn encode_unmasked(frame: &WsFrame) -> Vec<u8> {
    let mut out = Vec::new();
    frame.encode(&mut out, None).expect("encode");
    out
}

fn make_header(payload_len: u64, header_len: usize) -> WsFrameHeader {
    WsFrameHeader {
        fin: true,
        rsv1: false,
        rsv2: false,
        rsv3: false,
        opcode: WsOpcode::Binary,
        masked: false,
        payload_len,
        mask_key: None,
        header_len,
    }
}

#[test]
fn header_parse_waits_for_incomplete_base_header() {
    assert!(parse_header(&[]).unwrap().is_none());
    assert!(parse_header(&[0x81]).unwrap().is_none());
}

#[test]
fn header_parse_extracts_flags_opcode_and_length() {
    let mut buf = vec![0xC1, 0x80 | 10, 1, 2, 3, 4];
    buf.extend_from_slice(&[0u8; 10]);
    let header = parse_header(&buf).unwrap().unwrap();
    assert!(header.fin);
    assert!(header.rsv1);
    assert!(!header.rsv2);
    assert!(!header.rsv3);
    assert_eq!(header.opcode, WsOpcode::Text);
    assert!(header.masked);
    assert_eq!(header.payload_len, 10);
    assert_eq!(header.mask_key, Some([1, 2, 3, 4]));
    assert_eq!(header.header_len, 6);
}

#[test]
fn header_parse_accepts_all_defined_opcodes() {
    for v in [0u8, 0x1, 0x2, 0x8, 0x9, 0xA] {
        let buf = [0x80 | v, 0x00];
        let header = parse_header(&buf).unwrap().unwrap();
        assert_eq!(header.opcode.as_u8(), v, "opcode {v:#x}");
    }
}

#[test]
fn header_parse_rejects_reserved_opcodes() {
    for v in [3u8, 4, 5, 6, 7, 0xB, 0xC, 0xD, 0xE, 0xF] {
        let buf = [0x80 | v, 0x00];
        let err = parse_header(&buf).unwrap_err();
        assert!(
            matches!(
                err,
                WsError::Protocol {
                    close_code: WsCloseCode::ProtocolError,
                    ..
                }
            ),
            "opcode {v:#x}: {err:?}"
        );
    }
}

#[test]
fn header_parse_waits_for_truncated_masked_header() {
    let full = [0x81, 0x85, 9, 8, 7, 6];
    for n in 0..full.len() {
        assert!(
            parse_header(&full[..n]).unwrap().is_none(),
            "truncated at {n}"
        );
    }
    let header = parse_header(&full).unwrap().unwrap();
    assert_eq!(header.mask_key, Some([9, 8, 7, 6]));
    assert_eq!(header.header_len, 6);
}

#[test]
fn header_parse_enforces_minimal_16bit_length_encoding() {
    let mut full = vec![0x81, 126];
    full.extend_from_slice(&126u16.to_be_bytes());
    for n in 2..full.len() {
        assert!(
            parse_header(&full[..n]).unwrap().is_none(),
            "truncated at {n}"
        );
    }
    let header = parse_header(&full).unwrap().unwrap();
    assert_eq!(header.payload_len, 126);
    assert_eq!(header.header_len, 4);

    let non_minimal = [0x81, 126, 0x00, 0x7D];
    assert!(matches!(
        parse_header(&non_minimal).unwrap_err(),
        WsError::Protocol { .. }
    ));
    let zero_via_16bit = [0x81, 126, 0x00, 0x00];
    assert!(matches!(
        parse_header(&zero_via_16bit).unwrap_err(),
        WsError::Protocol { .. }
    ));
}

#[test]
fn header_parse_enforces_64bit_length_rules() {
    let mut full = vec![0x81, 127];
    full.extend_from_slice(&0x1_0000u64.to_be_bytes());
    for n in 2..full.len() {
        assert!(
            parse_header(&full[..n]).unwrap().is_none(),
            "truncated at {n}"
        );
    }
    let header = parse_header(&full).unwrap().unwrap();
    assert_eq!(header.payload_len, 0x1_0000);
    assert_eq!(header.header_len, 10);

    let mut non_minimal = vec![0x81, 127];
    non_minimal.extend_from_slice(&0xFFFFu64.to_be_bytes());
    assert!(matches!(
        parse_header(&non_minimal).unwrap_err(),
        WsError::Protocol { .. }
    ));

    let mut msb_set = vec![0x81, 127];
    msb_set.extend_from_slice(&0x8000_0000_0000_0001u64.to_be_bytes());
    assert!(matches!(
        parse_header(&msb_set).unwrap_err(),
        WsError::Protocol { .. }
    ));
}

#[test]
fn header_parse_rejects_oversize_frames_before_payload_arrives() {
    let cases = [
        u64::try_from(DEFAULT_MAX_FRAME_SIZE).unwrap() + 1,
        u64::from(u32::MAX),
        0x7FFF_FFFF_FFFF_FFFF,
    ];
    for declared in cases {
        let mut buf = vec![0x82, 127];
        buf.extend_from_slice(&declared.to_be_bytes());
        let err = parse_header(&buf).unwrap_err();
        match err {
            WsError::MessageTooBig { size, limit } => {
                assert!(size > limit);
                assert_eq!(limit, DEFAULT_MAX_FRAME_SIZE);
            }
            other => panic!("expected MessageTooBig for {declared}, got {other:?}"),
        }
    }
}

#[test]
fn header_parse_rejects_fragmented_control_frames() {
    for b0 in [0x08u8, 0x09, 0x0A] {
        let buf = [b0, 0x00];
        let err = parse_header(&buf).unwrap_err();
        assert!(
            matches!(
                err,
                WsError::Protocol {
                    close_code: WsCloseCode::ProtocolError,
                    ..
                }
            ),
            "b0 {b0:#x}: {err:?}"
        );
    }
}

#[test]
fn header_parse_rejects_control_frames_over_125_bytes() {
    let ping_126 = [0x89, 126, 0x00, 0x7E];
    assert!(matches!(
        parse_header(&ping_126).unwrap_err(),
        WsError::Protocol { .. }
    ));

    let mut pong_64k = vec![0x8A, 127];
    pong_64k.extend_from_slice(&0x1_0000u64.to_be_bytes());
    assert!(matches!(
        parse_header(&pong_64k).unwrap_err(),
        WsError::Protocol { .. }
    ));

    let max_control = [0x89, 125];
    assert!(parse_header(&max_control).unwrap().is_some());
}

#[test]
fn header_frame_len_reports_overflow_as_none() {
    let max_len = make_header(u64::try_from(usize::MAX).unwrap(), 2);
    assert!(max_len.frame_len().is_none());

    let boundary = make_header(u64::try_from(usize::MAX - 2).unwrap(), 2);
    assert_eq!(boundary.frame_len(), Some(usize::MAX));

    let small = make_header(5, 6);
    assert_eq!(small.frame_len(), Some(11));
}

#[test]
fn check_rsv_clear_rejects_each_reserved_bit() {
    let base = make_header(0, 2);
    assert!(base.check_rsv_clear().is_ok());

    let mut rsv1 = make_header(0, 2);
    rsv1.rsv1 = true;
    assert!(rsv1.check_rsv_clear().is_err());

    let mut rsv2 = make_header(0, 2);
    rsv2.rsv2 = true;
    assert!(rsv2.check_rsv_clear().is_err());

    let mut rsv3 = make_header(0, 2);
    rsv3.rsv3 = true;
    assert!(rsv3.check_rsv_clear().is_err());
}

#[test]
fn check_masking_enforces_role_expectations() {
    let mut unmasked = make_header(0, 2);
    unmasked.masked = false;
    assert!(unmasked.check_masking(Role::Client).is_ok());
    assert!(matches!(
        unmasked.check_masking(Role::Server).unwrap_err(),
        WsError::Protocol { .. }
    ));

    let mut masked = make_header(0, 6);
    masked.masked = true;
    masked.mask_key = Some([1, 2, 3, 4]);
    assert!(masked.check_masking(Role::Server).is_ok());
    assert!(matches!(
        masked.check_masking(Role::Client).unwrap_err(),
        WsError::Protocol { .. }
    ));
}

#[test]
fn try_parse_frame_rejects_encoded_reserved_bits() {
    for flag in [0x40u8, 0x20, 0x10] {
        let mut frame = WsFrame::text("hi".as_bytes().to_vec());
        match flag {
            0x40 => frame.header.rsv1 = true,
            0x20 => frame.header.rsv2 = true,
            _ => frame.header.rsv3 = true,
        }
        let encoded = encode_unmasked(&frame);
        let err = parse_client(&encoded).unwrap_err();
        assert!(
            matches!(
                err,
                WsError::Protocol {
                    close_code: WsCloseCode::ProtocolError,
                    ..
                }
            ),
            "flag {flag:#x}: {err:?}"
        );
    }
}

#[test]
fn apply_mask_is_involution_across_odd_lengths() {
    let mut data = b"the quick brown fox".to_vec();
    let original = data.clone();
    apply_mask(&mut data, [1, 2, 3, 4]);
    assert_ne!(data, original);
    apply_mask(&mut data, [1, 2, 3, 4]);
    assert_eq!(data, original);

    let mut zeroed = vec![10u8, 20, 30, 40, 50];
    apply_mask(&mut zeroed, [0, 0, 0, 0]);
    assert_eq!(zeroed, vec![10, 20, 30, 40, 50]);

    let mut empty: Vec<u8> = Vec::new();
    apply_mask(&mut empty, [0xAA, 0x55, 0xF0, 0x0F]);
    assert!(empty.is_empty());

    for len in [1usize, 3, 5, 7, 8, 9] {
        let mut bytes: Vec<u8> = (0..len)
            .map(|i| u8::try_from(i * 17 % 256).unwrap())
            .collect();
        let orig = bytes.clone();
        apply_mask(&mut bytes, [0xAA, 0x55, 0xF0, 0x0F]);
        assert_ne!(bytes, orig, "len {len}");
        apply_mask(&mut bytes, [0xAA, 0x55, 0xF0, 0x0F]);
        assert_eq!(bytes, orig, "len {len}");
    }
}

#[test]
fn random_mask_key_yields_distinct_usable_keys() {
    let mut keys = Vec::with_capacity(64);
    for _ in 0..64 {
        keys.push(random_mask_key().unwrap());
    }
    assert!(keys.iter().any(|k| *k != keys[0]));

    let mut data = vec![7u8; 33];
    let original = data.clone();
    apply_mask(&mut data, keys[0]);
    assert_ne!(data, original);
    apply_mask(&mut data, keys[0]);
    assert_eq!(data, original);
}

#[test]
fn try_parse_frame_round_trips_every_opcode() {
    let cases: [(WsOpcode, Vec<u8>); 6] = [
        (WsOpcode::Continuation, b"part".to_vec()),
        (WsOpcode::Text, b"hello".to_vec()),
        (WsOpcode::Binary, vec![0, 1, 2, 255]),
        (WsOpcode::Close, Vec::new()),
        (WsOpcode::Ping, vec![0xAB; 125]),
        (WsOpcode::Pong, vec![0xCD; 1]),
    ];
    for (opcode, payload) in cases {
        let frame = WsFrame::new(true, opcode, payload.clone());
        let encoded = encode_unmasked(&frame);
        let (parsed, consumed) = parse_client(&encoded).unwrap().unwrap();
        assert_eq!(consumed, encoded.len(), "opcode {opcode:?}");
        assert_eq!(parsed.header.opcode, opcode);
        assert!(parsed.header.fin);
        assert_eq!(parsed.payload, payload, "opcode {opcode:?}");
    }
}

#[test]
fn try_parse_frame_round_trips_length_boundaries() {
    for len in [0usize, 1, 125, 126, 65535, 65536] {
        let payload: Vec<u8> =
            (0..len).map(|i| u8::try_from(i % 256).unwrap()).collect();
        let frame = WsFrame::new(true, WsOpcode::Binary, payload.clone());
        let encoded = encode_unmasked(&frame);

        let marker = match len {
            0..=125 => u8::try_from(len).unwrap(),
            126..=65535 => 126,
            _ => 127,
        };
        assert_eq!(encoded[1] & 0x7F, marker, "len {len}");

        let expected_header = match len {
            0..=125 => 2usize,
            126..=65535 => 4,
            _ => 10,
        };
        let (parsed, consumed) = parse_client(&encoded).unwrap().unwrap();
        assert_eq!(consumed, encoded.len(), "len {len}");
        assert_eq!(parsed.header.header_len, expected_header, "len {len}");
        assert_eq!(
            parsed.header.payload_len,
            u64::try_from(len).unwrap(),
            "len {len}"
        );
        assert_eq!(parsed.payload, payload, "len {len}");
    }
}

#[test]
fn try_parse_frame_round_trips_masked_payload_as_server() {
    let payload = b"masked payload bytes".to_vec();
    let frame = WsFrame::new(true, WsOpcode::Binary, payload.clone());
    let key = [0xDE, 0xAD, 0xBE, 0xEF];
    let mut out = Vec::new();
    frame.encode(&mut out, Some(key)).unwrap();

    let wire_payload_start = out.len() - payload.len();
    assert_ne!(&out[wire_payload_start..], &payload[..]);

    for n in 0..out.len() {
        assert!(
            parse_server(&out[..n]).unwrap().is_none(),
            "masked frame truncated at {n}"
        );
    }

    let (parsed, consumed) = parse_server(&out).unwrap().unwrap();
    assert_eq!(consumed, out.len());
    assert_eq!(parsed.payload, payload);
    assert!(parsed.header.masked);
    assert_eq!(parsed.header.mask_key, Some(key));
}

#[test]
fn try_parse_frame_rejects_masking_violations() {
    let frame = WsFrame::text("payload".as_bytes().to_vec());
    let unmasked = encode_unmasked(&frame);
    let err = parse_server(&unmasked).unwrap_err();
    let msg = match err {
        WsError::Protocol { message, .. } => message,
        other => format!("unexpected variant: {other:?}"),
    };
    assert!(msg.contains("unmasked"), "message: {msg}");

    let mut masked_out = Vec::new();
    frame.encode(&mut masked_out, Some([1, 2, 3, 4])).unwrap();
    let err = parse_client(&masked_out).unwrap_err();
    let msg = match err {
        WsError::Protocol { message, .. } => message,
        other => format!("unexpected variant: {other:?}"),
    };
    assert!(msg.contains("masked frame"), "message: {msg}");
}

#[test]
fn try_parse_frame_waits_until_full_payload_arrives() {
    let frame = WsFrame::text("0123456789".as_bytes().to_vec());
    let encoded = encode_unmasked(&frame);
    let total = encoded.len();
    for n in 0..total {
        assert!(
            parse_client(&encoded[..n]).unwrap().is_none(),
            "unmasked frame truncated at {n}"
        );
    }
    let (parsed, consumed) = parse_client(&encoded).unwrap().unwrap();
    assert_eq!(consumed, total);
    assert_eq!(parsed.payload, frame.payload);
}

#[test]
fn try_parse_frame_consumes_exactly_one_frame() {
    let first = WsFrame::text("first".as_bytes().to_vec());
    let second = WsFrame::binary(vec![1, 2, 3]);
    let mut buf = encode_unmasked(&first);
    let first_len = buf.len();
    buf.extend_from_slice(&encode_unmasked(&second));

    let (parsed, consumed) = parse_client(&buf).unwrap().unwrap();
    assert_eq!(consumed, first_len);
    assert_eq!(parsed.payload, first.payload);

    let (parsed2, consumed2) = parse_client(&buf[consumed..]).unwrap().unwrap();
    assert_eq!(consumed2, buf.len() - first_len);
    assert_eq!(parsed2.payload, second.payload);
    assert_eq!(parsed2.header.opcode, WsOpcode::Binary);
}

#[test]
fn constructors_build_expected_frames() {
    let text = WsFrame::text("hi".as_bytes().to_vec());
    assert!(text.header.fin);
    assert_eq!(text.header.opcode, WsOpcode::Text);
    assert_eq!(text.payload, b"hi");
    assert_eq!(text.header.payload_len, 2);

    let binary = WsFrame::binary(vec![9u8]);
    assert_eq!(binary.header.opcode, WsOpcode::Binary);

    let close = WsFrame::close(Some(WsCloseCode::Normal), "bye").unwrap();
    assert_eq!(close.header.opcode, WsOpcode::Close);
    assert_eq!(close.payload, [0x03, 0xE8, b'b', b'y', b'e']);

    let ping = WsFrame::ping(b"ping".to_vec()).unwrap();
    assert_eq!(ping.header.opcode, WsOpcode::Ping);
    assert!(ping.header.fin);

    let pong = WsFrame::pong(Vec::new()).unwrap();
    assert_eq!(pong.header.opcode, WsOpcode::Pong);
    assert!(pong.payload.is_empty());

    let partial = WsFrame::new(false, WsOpcode::Text, b"a".to_vec());
    assert!(!partial.header.fin);
}

#[test]
fn ping_pong_and_close_constructors_enforce_limits() {
    assert!(WsFrame::ping(vec![0u8; 125]).is_ok());
    assert!(matches!(
        WsFrame::ping(vec![0u8; 126]).unwrap_err(),
        WsError::Protocol { .. }
    ));
    assert!(WsFrame::pong(vec![0u8; 125]).is_ok());
    assert!(matches!(
        WsFrame::pong(vec![0u8; 126]).unwrap_err(),
        WsError::Protocol { .. }
    ));

    assert!(WsFrame::close(None, "").is_ok());
    assert!(WsFrame::close(None, "reason needs code").is_err());
    assert!(WsFrame::close(Some(WsCloseCode::Normal), "bye").is_ok());
    for reserved in [
        WsCloseCode::NoStatusReceived,
        WsCloseCode::Abnormal,
        WsCloseCode::TlsHandshake,
    ] {
        let err = WsFrame::close(Some(reserved), "").unwrap_err();
        assert!(
            matches!(err, WsError::Protocol { .. }),
            "code {reserved:?}: {err:?}"
        );
    }
}

#[test]
fn close_payload_encode_decode_round_trips() {
    let payload = encode_close_payload(Some(WsCloseCode::Normal), "bye").unwrap();
    assert_eq!(payload, [0x03, 0xE8, b'b', b'y', b'e']);
    let (code, reason) = decode_close_payload(&payload).unwrap();
    assert_eq!(code, WsCloseCode::Normal);
    assert_eq!(reason, "bye");

    let empty = encode_close_payload(None, "").unwrap();
    assert!(empty.is_empty());
    let (code, reason) = decode_close_payload(&empty).unwrap();
    assert_eq!(code, WsCloseCode::NoStatusReceived);
    assert!(reason.is_empty());

    let app = encode_close_payload(Some(WsCloseCode::Other(3000)), "app").unwrap();
    assert_eq!(app, [0x0B, 0xB8, b'a', b'p', b'p']);
    let (code, reason) = decode_close_payload(&app).unwrap();
    assert_eq!(code, WsCloseCode::Other(3000));
    assert_eq!(reason, "app");

    let max_reason = "r".repeat(123);
    let full =
        encode_close_payload(Some(WsCloseCode::GoingAway), &max_reason).unwrap();
    assert_eq!(full.len(), 125);
    let (code, reason) = decode_close_payload(&full).unwrap();
    assert_eq!(code, WsCloseCode::GoingAway);
    assert_eq!(reason, max_reason);
}

#[test]
fn encode_close_payload_rejects_invalid_inputs() {
    assert!(encode_close_payload(None, "reason without code").is_err());
    for code in [
        WsCloseCode::NoStatusReceived,
        WsCloseCode::Abnormal,
        WsCloseCode::TlsHandshake,
    ] {
        let err = encode_close_payload(Some(code), "").unwrap_err();
        assert!(
            matches!(
                err,
                WsError::Protocol {
                    close_code: WsCloseCode::ProtocolError,
                    ..
                }
            ),
            "code {code:?}: {err:?}"
        );
    }
    let too_long = "r".repeat(124);
    assert!(encode_close_payload(Some(WsCloseCode::Normal), &too_long).is_err());
}

#[test]
fn decode_close_payload_rejects_truncated_and_reserved_codes() {
    assert!(decode_close_payload(&[0x00]).is_err());
    for bytes in [
        [0x00u8, 0x00].as_slice(),
        &[0x03, 0xE7][..],
        &[0x03, 0xED][..],
        &[0x03, 0xEE][..],
        &[0x03, 0xF7][..],
        &[0xFF, 0xFF][..],
    ] {
        assert!(
            decode_close_payload(bytes).is_err(),
            "payload {:02x?}",
            bytes
        );
    }

    let (code, reason) = decode_close_payload(&[0x03, 0xE8]).unwrap();
    assert_eq!(code, WsCloseCode::Normal);
    assert!(reason.is_empty());

    let mut utf8_reason = vec![0x03, 0xE8];
    utf8_reason.extend_from_slice("héllo".as_bytes());
    let (code, reason) = decode_close_payload(&utf8_reason).unwrap();
    assert_eq!(code, WsCloseCode::Normal);
    assert_eq!(reason, "héllo");
}

#[test]
fn decode_close_payload_rejects_invalid_utf8_reason() {
    assert!(matches!(
        decode_close_payload(&[0x03, 0xE8, 0xFF]),
        Err(WsError::InvalidUtf8)
    ));
    assert!(matches!(
        decode_close_payload(&[0x03, 0xE8, 0xC3]),
        Err(WsError::InvalidUtf8)
    ));
    assert!(matches!(
        decode_close_payload(&[0x03, 0xE8, 0xC0, 0x80]),
        Err(WsError::InvalidUtf8)
    ));
}

#[test]
fn one_mib_payload_round_trips_masked_and_unmasked() {
    let len = 1024 * 1024;
    let payload: Vec<u8> = (0..len).map(|i| u8::try_from(i % 251).unwrap()).collect();
    let frame = WsFrame::new(true, WsOpcode::Binary, payload.clone());

    let unmasked = encode_unmasked(&frame);
    let (parsed, consumed) = parse_client(&unmasked).unwrap().unwrap();
    assert_eq!(consumed, unmasked.len());
    assert_eq!(parsed.payload, payload);

    let mut masked_out = Vec::new();
    frame.encode(&mut masked_out, Some([9, 8, 7, 6])).unwrap();
    let (parsed, consumed) = parse_server(&masked_out).unwrap().unwrap();
    assert_eq!(consumed, masked_out.len());
    assert_eq!(parsed.payload, payload);
}

#[test]
fn repeated_small_round_trips_reuse_output_buffer() {
    let mut out = Vec::with_capacity(128);
    for i in 0..500 {
        out.clear();
        let text = format!("chunk-{i}");
        let frame = WsFrame::text(text.as_bytes().to_vec());
        frame.encode(&mut out, None).unwrap();
        let (parsed, consumed) = parse_client(&out).unwrap().unwrap();
        assert_eq!(consumed, out.len(), "iteration {i}");
        assert_eq!(parsed.payload, text.as_bytes(), "iteration {i}");
    }
}

#[test]
fn complete_frame_parses_the_same_whatever_follows() {
    // An unmasked binary frame of 200 bytes (16-bit length form).
    let mut frame = vec![0x82u8, 126, 0, 200];
    frame.extend(std::iter::repeat(7u8).take(200));
    let alone = parse_client(&frame).unwrap().unwrap();
    assert_eq!(alone.1, 204);
    for tail in [vec![], vec![0x81u8], vec![0xffu8, 0xff, 0xff]] {
        let mut buf = frame.clone();
        buf.extend_from_slice(&tail);
        let (parsed, used) = parse_client(&buf).unwrap().unwrap();
        assert_eq!(used, 204);
        assert_eq!(parsed.payload, alone.0.payload);
        assert_eq!(parsed.header.opcode, WsOpcode::Binary);
    }
    for k in 0..frame.len() {
        assert!(parse_client(&frame[..k]).unwrap().is_none());
    }
}
