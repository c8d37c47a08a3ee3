use codevar_wsocket::ws_client::ClientConnection;
use codevar_wsocket::ws_connection::ConnectionState;
use codevar_wsocket::ws_error::WsError;
use codevar_wsocket::ws_frame::{WsFrame, try_parse_frame};
use codevar_wsocket::ws_handshake::{WsServerHandshake, try_parse_request};
use codevar_wsocket::ws_ids::{DEFAULT_MAX_FRAME_SIZE, Role, WsCloseCode};
use codevar_wsocket::ws_message::WsMessage;
use codevar_wsocket::ws_server::ServerConnection;

fn raw_response(status_line: &str, headers: &[(&str, &str)]) -> Vec<u8> {
    let mut s = format!("{status_line}\r\n");
    for (name, value) in headers {
        s.push_str(&format!("{name}: {value}\r\n"));
    }
    s.push_str("\r\n");
    s.into_bytes()
}

/// Builds a valid 101 response for `client` by running a real
/// server-side handshake against the queued Upgrade request.
fn server_accept_response(client: &mut ClientConnection) -> Vec<u8> {
    let request = client.take_write();
    let (req, _) = try_parse_request(&request)
        .expect("parse")
        .expect("complete");
    let mut hs = WsServerHandshake::new(vec![]);
    hs.accept_request(req).expect("accept");
    hs.encode_response().expect("encode")
}

fn unmasked(frame: &WsFrame) -> Vec<u8> {
    let mut out = Vec::new();
    frame.encode(&mut out, None).expect("encode");
    out
}

#[test]
fn connect_queues_upgrade_request_and_starts_handshaking() {
    let mut client =
        ClientConnection::connect("/chat", "example.com", None).expect("connect");
    assert!(client.is_handshaking());
    assert!(!client.is_open());
    assert!(!client.is_closed());
    assert!(client.wants_write());
    assert!(client.wants_read());
    assert_eq!(client.state(), ConnectionState::Connecting);
    assert!(client.protocol().is_none());

    let wire = client.take_write();
    let text = String::from_utf8(wire.clone()).expect("utf8");
    assert!(text.starts_with("GET /chat HTTP/1.1\r\n"));
    assert!(text.contains("Host: example.com\r\n"));
    assert!(text.contains("Upgrade: websocket\r\n"));
    assert!(text.contains("Sec-WebSocket-Version: 13\r\n"));
    assert!(text.ends_with("\r\n\r\n"));
    assert!(!client.wants_write());

    // Processing with no response bytes keeps the handshake pending.
    let io = client.process().expect("process");
    assert_eq!(io.pending_rx, 0);
    assert!(client.is_handshaking());
}

#[test]
fn connect_rejects_invalid_path() {
    for bad in ["", "no-slash", "http://host/path"] {
        let result = ClientConnection::connect(bad, "h", None);
        assert!(
            matches!(result, Err(WsError::Handshake(_))),
            "bad path {bad} accepted"
        );
    }
}

#[test]
fn handshake_completes_via_server_connection() {
    let mut client = ClientConnection::connect(
        "/chat",
        "example.com",
        Some(vec!["chat".to_string()]),
    )
    .expect("connect");
    let mut server =
        ServerConnection::accept(Some(vec!["chat".to_string()])).expect("accept");

    let request = client.take_write();
    server.feed(&request).expect("feed");
    server.process().expect("server process");
    assert!(server.is_open());

    let response = server.take_write();
    client.feed(&response).expect("feed");
    client.process().expect("client process");
    assert!(client.is_open());
    assert!(!client.is_handshaking());
    assert_eq!(client.protocol(), Some("chat"));
    assert_eq!(server.protocol(), Some("chat"));
    assert_eq!(server.path(), Some("/chat"));
    assert!(!client.wants_write());
    assert_eq!(client.state(), ConnectionState::Open);
}

#[test]
fn handshake_byte_by_byte_matches_all_at_once() {
    let mut incremental = ClientConnection::connect("/", "h", None).expect("connect");
    let response = server_accept_response(&mut incremental);
    for (i, b) in response.iter().enumerate() {
        incremental.feed(&[*b]).expect("feed");
        incremental.process().expect("process");
        if i + 1 < response.len() {
            assert!(incremental.is_handshaking(), "opened early at byte {i}");
        }
    }
    assert!(incremental.is_open());

    let mut at_once = ClientConnection::connect("/", "h", None).expect("connect");
    let response2 = server_accept_response(&mut at_once);
    assert_eq!(response.len(), response2.len());
    at_once.feed(&response2).expect("feed");
    at_once.process().expect("process");
    assert!(at_once.is_open());
    assert_eq!(at_once.state(), incremental.state());
}

#[test]
fn truncated_response_keeps_handshake_pending() {
    let mut client = ClientConnection::connect("/", "h", None).expect("connect");
    let response = server_accept_response(&mut client);
    let split = response.len() / 2;
    client.feed(&response[..split]).expect("feed");
    let io = client.process().expect("process");
    assert_eq!(io.pending_rx, split);
    assert!(client.is_handshaking());

    client.feed(&response[split..]).expect("feed");
    client.process().expect("process");
    assert!(client.is_open());
    assert_eq!(client.state(), ConnectionState::Open);
}

#[test]
fn pipelined_frame_after_response_is_delivered_in_one_process() {
    let mut client = ClientConnection::connect("/", "h", None).expect("connect");
    let mut payload = server_accept_response(&mut client);
    payload.extend(unmasked(&WsFrame::text(b"early".to_vec())));
    client.feed(&payload).expect("feed");
    client.process().expect("process");
    assert!(client.is_open());
    match client.read_message().expect("read") {
        Some(WsMessage::Text(t)) => assert_eq!(t, "early"),
        other => panic!("unexpected {other:?}"),
    }
}

#[test]
fn handshake_rejects_bad_status() {
    let mut client = ClientConnection::connect("/", "h", None).expect("connect");
    let resp = raw_response("HTTP/1.1 400 Bad Request", &[("Content-Length", "0")]);
    client.feed(&resp).expect("feed");
    let err = client.process().expect_err("bad status");
    assert!(matches!(err, WsError::Handshake(_)));
    assert!(client.is_closed());
    // Empty feed after close is tolerated; non-empty is rejected.
    client.feed(&[]).expect("empty feed");
    assert!(matches!(client.feed(&[0u8]), Err(WsError::Closed)));
    let io = client.process().expect("closed process");
    assert_eq!(io.pending_rx, 0);
}

#[test]
fn handshake_rejects_wrong_accept_key() {
    let mut client = ClientConnection::connect("/", "h", None).expect("connect");
    let response = server_accept_response(&mut client);
    let response = String::from_utf8(response).expect("utf8");
    let key = "Sec-WebSocket-Accept: ";
    let start = response.find(key).expect("accept header") + key.len();
    let original = response.as_bytes()[start];
    let tampered = if original == b'A' { b'B' } else { b'A' };
    let mut bytes = response.into_bytes();
    bytes[start] = tampered;
    client.feed(&bytes).expect("feed");
    let err = client.process().expect_err("accept mismatch");
    assert!(matches!(err, WsError::Handshake(_)));
    assert!(client.is_closed());
}

#[test]
fn handshake_rejects_bad_upgrade_headers() {
    // Wrong upgrade value.
    let mut client = ClientConnection::connect("/", "h", None).expect("connect");
    let resp = raw_response(
        "HTTP/1.1 101 Switching Protocols",
        &[
            ("Upgrade", "h2c"),
            ("Connection", "Upgrade"),
            ("Sec-WebSocket-Accept", "AAAAAAAAAAAAAAAAAAAAAAAAAAAA="),
        ],
    );
    client.feed(&resp).expect("feed");
    assert!(matches!(client.process(), Err(WsError::Handshake(_))));
    assert!(client.is_closed());

    // Missing Upgrade header.
    let mut client = ClientConnection::connect("/", "h", None).expect("connect");
    let resp = raw_response(
        "HTTP/1.1 101 Switching Protocols",
        &[
            ("Connection", "Upgrade"),
            ("Sec-WebSocket-Accept", "AAAAAAAAAAAAAAAAAAAAAAAAAAAA="),
        ],
    );
    client.feed(&resp).expect("feed");
    assert!(matches!(client.process(), Err(WsError::Handshake(_))));

    // Connection without the Upgrade token.
    let mut client = ClientConnection::connect("/", "h", None).expect("connect");
    let resp = raw_response(
        "HTTP/1.1 101 Switching Protocols",
        &[
            ("Upgrade", "websocket"),
            ("Connection", "keep-alive"),
            ("Sec-WebSocket-Accept", "AAAAAAAAAAAAAAAAAAAAAAAAAAAA="),
        ],
    );
    client.feed(&resp).expect("feed");
    assert!(matches!(client.process(), Err(WsError::Handshake(_))));
}

#[test]
fn garbage_status_line_fails_but_leaves_connecting_state() {
    let mut client = ClientConnection::connect("/", "h", None).expect("connect");
    client.feed(b"NOT-HTTP-AT-ALL\r\n\r\n").expect("feed");
    let err = client.process().expect_err("garbage");
    assert!(matches!(err, WsError::Handshake(_)));
    // Quirk: parse-level failures propagate without closing the state.
    assert!(client.is_handshaking());
    // Retrying yields the same error deterministically.
    assert!(matches!(client.process(), Err(WsError::Handshake(_))));
}

#[test]
fn send_before_open_is_rejected() {
    let mut client = ClientConnection::connect("/", "h", None).expect("connect");
    assert!(matches!(
        client.send_text("x"),
        Err(WsError::InvalidState(_))
    ));
    assert!(matches!(
        client.send_binary(b"x"),
        Err(WsError::InvalidState(_))
    ));
    assert!(matches!(
        client.send_ping(b"x"),
        Err(WsError::InvalidState(_))
    ));
    assert!(matches!(
        client.send_pong(b"x"),
        Err(WsError::InvalidState(_))
    ));
}

#[test]
fn outbound_client_frames_are_masked() {
    let mut client = ClientConnection::connect("/", "h", None).expect("connect");
    let response = server_accept_response(&mut client);
    client.feed(&response).expect("feed");
    client.process().expect("process");
    assert!(client.is_open());

    client.send_text("hello").expect("send");
    let wire = client.take_write();
    assert_eq!(wire[0], 0x81);
    assert_ne!(wire[1] & 0x80, 0);
    let (frame, consumed) =
        try_parse_frame(&wire, Role::Server, DEFAULT_MAX_FRAME_SIZE)
            .expect("parse")
            .expect("complete");
    assert_eq!(consumed, wire.len());
    assert_eq!(frame.payload, b"hello");
}

#[test]
fn inbound_text_binary_and_controls_are_delivered() {
    let mut client = ClientConnection::connect("/", "h", None).expect("connect");
    let response = server_accept_response(&mut client);
    client.feed(&response).expect("feed");
    client.process().expect("process");
    assert!(client.is_open());

    let mut input = unmasked(&WsFrame::text(b"hi".to_vec()));
    input.extend(unmasked(&WsFrame::binary(vec![1, 2, 3])));
    let ping = WsFrame::ping(b"p".to_vec()).expect("ping frame");
    input.extend(unmasked(&ping));
    let pong = WsFrame::pong(b"q".to_vec()).expect("pong frame");
    input.extend(unmasked(&pong));
    client.feed(&input).expect("feed");
    client.process().expect("process");

    assert!(matches!(
        client.read_message().expect("read"),
        Some(WsMessage::Text(t)) if t == "hi"
    ));
    assert!(matches!(
        client.read_message().expect("read"),
        Some(WsMessage::Binary(b)) if b == [1, 2, 3]
    ));
    assert!(matches!(
        client.read_message().expect("read"),
        Some(WsMessage::Ping(p)) if p == b"p"
    ));
    assert!(matches!(
        client.read_message().expect("read"),
        Some(WsMessage::Pong(p)) if p == b"q"
    ));
    assert!(client.read_message().expect("read").is_none());
    // The auto-pong for the server ping is queued.
    let pong = client.take_write();
    assert_eq!(pong[0], 0x8A);
}

#[test]
fn inbound_masked_frame_fails_protocol_and_sticks() {
    let mut client = ClientConnection::connect("/", "h", None).expect("connect");
    let response = server_accept_response(&mut client);
    client.feed(&response).expect("feed");
    client.process().expect("process");

    let mut masked = Vec::new();
    WsFrame::text(b"x".to_vec())
        .encode(&mut masked, Some([1, 2, 3, 4]))
        .expect("encode");
    client.feed(&masked).expect("feed");
    let err = client.process().expect_err("masked inbound");
    assert!(matches!(err, WsError::Protocol { .. }));
    assert!(client.is_closed());

    // The error is sticky for readers.
    let read_err = client.read_message().expect_err("sticky");
    assert!(matches!(read_err, WsError::Protocol { .. }));

    // A fail-close frame (masked, client role) was queued.
    let tx = client.take_write();
    assert_eq!(tx[0] & 0x0F, 0x8);
    assert_ne!(tx[1] & 0x80, 0);
}

#[test]
fn invalid_utf8_text_frame_fails_connection() {
    let mut client = ClientConnection::connect("/", "h", None).expect("connect");
    let response = server_accept_response(&mut client);
    client.feed(&response).expect("feed");
    client.process().expect("process");

    client
        .feed(&unmasked(&WsFrame::text(vec![0xC0, 0x80])))
        .expect("feed");
    let err = client.process().expect_err("bad utf8");
    assert_eq!(err, WsError::InvalidUtf8);
    assert!(client.is_closed());
}

#[test]
fn close_handshake_and_peer_close_accessors() {
    let mut client = ClientConnection::connect("/", "h", None).expect("connect");
    let response = server_accept_response(&mut client);
    client.feed(&response).expect("feed");
    client.process().expect("process");
    assert!(client.is_open());

    client
        .close(WsCloseCode::Normal, "done")
        .expect("local close");
    assert_eq!(client.state(), ConnectionState::Closing);
    let tx = client.take_write();
    assert_eq!(tx[0] & 0x0F, 0x8); // close opcode

    let close =
        WsFrame::close(Some(WsCloseCode::GoingAway), "bye").expect("close frame");
    client.feed(&unmasked(&close)).expect("feed");
    client.process().expect("peer close");
    assert!(client.is_closed());
    assert_eq!(client.peer_close_code(), Some(WsCloseCode::GoingAway));
    assert_eq!(client.peer_close_reason(), Some("bye"));
    match client.read_message().expect("read") {
        Some(WsMessage::Close { code, reason }) => {
            assert_eq!(code, WsCloseCode::GoingAway);
            assert_eq!(reason, "bye");
        }
        other => panic!("unexpected {other:?}"),
    }
    assert!(client.read_message().expect("read").is_none());
    assert!(!client.wants_read());
}

#[test]
fn close_before_handshake_closes_immediately() {
    let mut client = ClientConnection::connect("/", "h", None).expect("connect");
    client
        .close(WsCloseCode::Normal, "")
        .expect("close while connecting");
    assert!(client.is_closed());
    assert!(!client.is_handshaking());
    client.feed(&[]).expect("empty feed");
    assert!(matches!(client.feed(b"x"), Err(WsError::Closed)));
    let io = client.process().expect("closed process");
    assert_eq!(io.pending_rx, 0);
}
