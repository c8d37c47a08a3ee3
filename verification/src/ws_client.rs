//! WebSocket client connection (RFC 6455 §4.1 / §5).
//!
//! [`ClientConnection`] performs no I/O: feed response bytes with
//! [`ClientConnection::feed`], drain request and frame bytes with
//! [`ClientConnection::take_write`], and advance the protocol with
//! [`ClientConnection::process`].

use vstd::prelude::*;
use vstd::utf8::*;
use crate::ws_connection::{
    CommonState, ConnectionConfig, ConnectionState, IoState, data_refusal_text, frames_processed, fresh_common, opened,
};
use crate::ws_error::{WsError, WsResult, same_error, invalid_state_with};
use crate::ws_frame::close_payload_error_text;
use crate::ws_ids::protocol_error_with;
use crate::ws_frame::WsFrame;
use crate::ws_handshake::{
    WsClientHandshake, opt_str, head_chars, head_headers, header_end, opt_text, parsed_accept, parsed_protocol,
    parsed_status, protocol_after, request_text, response_accepted, response_error_text, response_rejection,
    response_valid, strs, try_parse_response,
};
use crate::ws_ids::{DEFAULT_MAX_FRAME_SIZE, DEFAULT_MAX_MESSAGE_SIZE, Role, WsCloseCode};
use crate::ws_message::WsMessage;

verus! {

broadcast use vstd::seq::group_seq_axioms;

/// The handshake settings other than the selected subprotocol agree.
pub open spec fn same_offer(a: WsClientHandshake, b: WsClientHandshake) -> bool {
    &&& a.path == b.path
    &&& a.host == b.host
    &&& a.nonce == b.nonce
    &&& a.key_b64 == b.key_b64
    &&& a.expected_accept == b.expected_accept
    &&& a.protocols == b.protocols
    &&& a.origin == b.origin
}

/// What one processing step does while the client waits for the server's
/// response: nothing until the header block is complete; a malformed block
/// fails with nothing changed; a response that fails validation closes the
/// connection; an accepted one opens it, and frames that arrived behind it
/// are processed at once.
pub open spec fn handshake_step(
    c0: CommonState,
    h0: WsClientHandshake,
    c1: CommonState,
    h1: WsClientHandshake,
    r: WsResult<IoState>,
) -> bool {
    let rx = c0.rx();
    match header_end(rx) {
        None => r == Ok::<IoState, WsError>(c0.spec_io_state()) && c1 == c0 && h1 == h0,
        Some(e) => {
            let cs = head_chars(rx, e);
            if !(valid_utf8(rx.subrange(0, e)) && response_valid(cs)) {
                &&& r matches Err(WsError::Handshake(m)) && m@ == if valid_utf8(rx.subrange(0, e)) {
                    response_error_text(cs)
                } else {
                    "response headers are not valid UTF-8"@
                }
                &&& c1 == c0
                &&& h1 == h0
            } else {
                let rest = rx.subrange(e + 4, rx.len() as int);
                let h = head_headers(cs).unwrap();
                let p = protocol_after(h0, parsed_status(cs), parsed_accept(cs), parsed_protocol(cs), h);
                &&& same_offer(h0, h1)
                &&& opt_text(h1.selected_protocol) == p
                &&& if !response_accepted(h0, parsed_status(cs), parsed_accept(cs), parsed_protocol(cs), h) {
                    &&& r matches Err(WsError::Handshake(m)) && m@ == response_rejection(h0, parsed_status(cs),
                        parsed_accept(cs), parsed_protocol(cs), h)
                    &&& c1.state == ConnectionState::Closed
                    &&& c1.rx() == rest
                    &&& c1.tx() == c0.tx()
                    &&& c1.queued() == c0.queued()
                    &&& c1.error == c0.error
                    &&& c1.protocol == c0.protocol
                } else {
                    exists|m: CommonState| opened(c0, m, rest, c0.tx(), p) && #[trigger] frames_processed(m, c1, r)
                }
            }
        },
    }
}

/// WebSocket client connection.
///
/// Lifecycle: [`ClientConnection::connect`] queues the HTTP Upgrade
/// request; send the [`ClientConnection::take_write`] bytes to the server;
/// feed its response and call [`ClientConnection::process`] until
/// [`ClientConnection::is_open`]; exchange messages; shut down with
/// [`ClientConnection::close`].
pub struct ClientConnection {
    common: CommonState,
    handshake: WsClientHandshake,
}

impl ClientConnection {
    /// The shared connection state.
    pub closed spec fn spec_common(&self) -> CommonState {
        self.common
    }

    /// The opening handshake.
    pub closed spec fn spec_handshake(&self) -> WsClientHandshake {
        self.handshake
    }

    /// The shared state is consistent and belongs to a client.
    pub closed spec fn wf(&self) -> bool {
        self.common.wf() && self.common.role == Role::Client
    }

    /// Starts a client connection to `path` on `host` with the default
    /// configuration, offering `protocols` (none when `None`). The Upgrade
    /// request is queued at once.
    pub fn connect(path: &str, host: &str, protocols: Option<Vec<String>>) -> (r: WsResult<ClientConnection>)
        ensures
            !(path@.len() > 0 && path@[0] == '/') ==> (r matches Err(WsError::Handshake(m))
                && m@ == "request path must be non-empty and begin with '/'"@),
            path@.len() > 0 && path@[0] == '/' ==> (r is Ok || r == Err::<ClientConnection, WsError>(WsError::RandomFailed)),
            r matches Ok(c) ==> {
                let hs = c.spec_handshake();
                &&& c.wf()
                &&& hs.path@ == path@
                &&& hs.host@ == host@
                &&& hs.protocols@ == (match protocols {
                    Some(v) => v@,
                    None => Seq::<String>::empty(),
                })
                &&& hs.origin is None
                &&& hs.selected_protocol is None
                &&& c.spec_common().config.max_frame_size == DEFAULT_MAX_FRAME_SIZE
                &&& c.spec_common().config.max_message_size == DEFAULT_MAX_MESSAGE_SIZE
                &&& c.spec_common().config.auto_pong
                &&& c.spec_common().config.auto_close_reply
                &&& fresh_common(c.spec_common(), Role::Client, c.spec_common().config,
                    encode_utf8(request_text(hs.path@, hs.host@, hs.key_b64@, None, strs(hs.protocols@))))
            },
    {
        let offered = match protocols {
            Some(v) => v,
            None => Vec::new(),
        };
        Self::connect_with_config(path, host, offered, None, ConnectionConfig::default())
    }

    /// Like [`ClientConnection::connect`], with an origin and a configuration.
    pub fn connect_with_config(
        path: &str,
        host: &str,
        protocols: Vec<String>,
        origin: Option<String>,
        config: ConnectionConfig,
    ) -> (r: WsResult<ClientConnection>)
        ensures
            !(path@.len() > 0 && path@[0] == '/') ==> (r matches Err(WsError::Handshake(m))
                && m@ == "request path must be non-empty and begin with '/'"@),
            path@.len() > 0 && path@[0] == '/' ==> (r is Ok || r == Err::<ClientConnection, WsError>(WsError::RandomFailed)),
            r matches Ok(c) ==> {
                let hs = c.spec_handshake();
                &&& c.wf()
                &&& hs.path@ == path@
                &&& hs.host@ == host@
                &&& hs.key_b64@ == crate::text::ascii_chars(crate::ws_base64::b64_encode(hs.nonce@))
                &&& hs.expected_accept@ == crate::ws_handshake::accept_for(hs.key_b64@)
                &&& hs.protocols == protocols
                &&& hs.origin == origin
                &&& hs.selected_protocol is None
                &&& fresh_common(c.spec_common(), Role::Client, config,
                    encode_utf8(request_text(hs.path@, hs.host@, hs.key_b64@, opt_text(hs.origin), strs(hs.protocols@))))
            },
    {
        let handshake = WsClientHandshake::new(path, host, protocols, origin)?;
        let mut common = CommonState::new(Role::Client, config);
        let request = handshake.encode_request();
        common.queue_raw(request.as_slice());
        Ok(ClientConnection { common, handshake })
    }

    /// Negotiated subprotocol after a successful handshake.
    pub fn protocol(&self) -> (r: Option<&str>)
        ensures
            opt_str(r) == opt_text(self.spec_common().protocol),
    {
        match &self.common.protocol {
            Some(p) => Some(p.as_str()),
            None => None,
        }
    }

    /// Current connection lifecycle state.
    pub fn state(&self) -> (r: ConnectionState)
        ensures
            r == self.spec_common().state,
    {
        self.common.state
    }

    /// Returns `true` when the opening handshake has completed.
    pub fn is_open(&self) -> (r: bool)
        ensures
            r == (self.spec_common().state == ConnectionState::Open),
    {
        self.common.is_open()
    }

    /// Returns `true` while the handshake is in progress.
    pub fn is_handshaking(&self) -> (r: bool)
        ensures
            r == (self.spec_common().state == ConnectionState::Connecting),
    {
        self.common.is_connecting()
    }

    /// Returns `true` when the connection is fully closed.
    pub fn is_closed(&self) -> (r: bool)
        ensures
            r == (self.spec_common().state == ConnectionState::Closed),
    {
        self.common.is_closed()
    }

    /// Returns `true` when outbound bytes are pending.
    pub fn wants_write(&self) -> (r: bool)
        ensures
            r == (self.spec_common().tx().len() > 0),
    {
        self.common.wants_write()
    }

    /// Returns `true` when more network input may be useful.
    pub fn wants_read(&self) -> (r: bool)
        ensures
            r == (self.spec_common().state != ConnectionState::Closed && !self.spec_common().peer_close_received),
    {
        self.common.wants_read()
    }

    /// Feeds transport bytes received from the peer; refused with `Closed`
    /// once the connection is closed (an empty feed is then a no-op).
    pub fn feed(&mut self, data: &[u8]) -> (r: WsResult<()>)
        requires
            old(self).wf(),
        ensures
            final(self).wf(),
            final(self).spec_handshake() == old(self).spec_handshake(),
            old(self).spec_common().state == ConnectionState::Closed ==> final(self).spec_common() == old(self).spec_common()
                && (r == if data@.len() == 0 { Ok::<(), WsError>(()) } else { Err(WsError::Closed) }),
            old(self).spec_common().state != ConnectionState::Closed ==> r is Ok
                && final(self).spec_common().rx() == old(self).spec_common().rx() + data@
                && final(self).spec_common().tx() == old(self).spec_common().tx()
                && final(self).spec_common().queued() == old(self).spec_common().queued()
                && final(self).spec_common().fragment == old(self).spec_common().fragment
                && final(self).spec_common().same_flags(&old(self).spec_common()),
    {
        if self.common.is_closed() && data.len() == 0 {
            return Ok(());
        }
        if self.common.is_closed() {
            return Err(WsError::Closed);
        }
        self.common.feed(data);
        Ok(())
    }

    /// Drains all buffered outbound transport bytes.
    pub fn take_write(&mut self) -> (r: Vec<u8>)
        requires
            old(self).wf(),
        ensures
            final(self).wf(),
            r@ == old(self).spec_common().tx(),
            final(self).spec_common().tx() == Seq::<u8>::empty(),
            final(self).spec_common().rx() == old(self).spec_common().rx(),
            final(self).spec_common().queued() == old(self).spec_common().queued(),
            final(self).spec_common().same_flags(&old(self).spec_common()),
            final(self).spec_handshake() == old(self).spec_handshake(),
    {
        self.common.take_write()
    }

    /// Processes buffered input: completes the handshake (see
    /// [`handshake_step`]) and then parses frames (see
    /// [`frames_processed`]).
    pub fn process(&mut self) -> (r: WsResult<IoState>)
        requires
            old(self).wf(),
        ensures
            final(self).wf(),
            old(self).spec_common().state == ConnectionState::Connecting ==> handshake_step(
                old(self).spec_common(),
                old(self).spec_handshake(),
                final(self).spec_common(),
                final(self).spec_handshake(),
                r,
            ),
            (old(self).spec_common().state == ConnectionState::Open || old(self).spec_common().state
                == ConnectionState::Closing) ==> frames_processed(old(self).spec_common(), final(self).spec_common(), r)
                && final(self).spec_handshake() == old(self).spec_handshake(),
            old(self).spec_common().state == ConnectionState::Closed ==> r == Ok::<IoState, WsError>(
                old(self).spec_common().spec_io_state())
                && final(self).spec_common() == old(self).spec_common()
                && final(self).spec_handshake() == old(self).spec_handshake(),
    {
        if self.common.is_connecting() {
            let ghost c0 = self.common;
            let parsed = try_parse_response(self.common.rx_buf());
            match parsed {
                Err(e) => {
                    return Err(e);
                },
                Ok(None) => {
                    return Ok(IoState {
                        pending_rx: self.common.rx_buf().len(),
                        pending_tx: self.common.pending_tx_len(),
                        pending_messages: self.common.pending_messages(),
                    });
                },
                Ok(Some((response, consumed))) => {
                    let ghost e = consumed - 4;
                    let ghost rest = c0.rx().subrange(e + 4, c0.rx().len() as int);
                    proof {
                        crate::ws_handshake::lemma_header_end_from_bound(c0.rx(), 0);
                    }
                    self.common.consume_rx(consumed);
                    proof {
                        assert(self.common.rx() =~= rest);
                    }
                    match self.handshake.validate_response(&response) {
                        Ok(()) => {},
                        Err(e) => {
                            self.common.state = ConnectionState::Closed;
                            return Err(e);
                        },
                    }
                    let selected = match &self.handshake.selected_protocol {
                        Some(p) => Some(p.clone()),
                        None => None,
                    };
                    self.common.mark_open(selected);
                    let ghost m = self.common;
                    proof {
                        assert(opened(c0, m, rest, c0.tx(), opt_text(self.handshake.selected_protocol)));
                    }
                    let r = self.common.process_frames();
                    proof {
                        assert(frames_processed(m, self.common, r));
                    }
                    return r;
                },
            }
        }
        if self.common.is_open() || self.common.state == ConnectionState::Closing {
            return self.common.process_frames();
        }
        Ok(IoState {
            pending_rx: self.common.rx_buf().len(),
            pending_tx: self.common.pending_tx_len(),
            pending_messages: self.common.pending_messages(),
        })
    }

    /// Sends a UTF-8 text message (see [`CommonState::send_text`]).
    pub fn send_text(&mut self, text: &str) -> (r: WsResult<()>)
        requires
            old(self).wf(),
        ensures
            final(self).wf(),
            final(self).spec_handshake() == old(self).spec_handshake(),
            final(self).spec_common().same_but_tx(&old(self).spec_common()),
            r is Err ==> final(self).spec_common().tx() == old(self).spec_common().tx(),
            !(old(self).spec_common().state == ConnectionState::Open && !old(self).spec_common().local_close_sent)
                ==> (r matches Err(e) && invalid_state_with(e, data_refusal_text(old(self).spec_common().state))),
            old(self).spec_common().state == ConnectionState::Open && !old(self).spec_common().local_close_sent
                && encode_utf8(text@).len() > old(self).spec_common().config.max_message_size
                ==> r == Err::<(), WsError>(WsError::MessageTooBig {
                    size: encode_utf8(text@).len() as usize,
                    limit: old(self).spec_common().config.max_message_size,
                }),
            old(self).spec_common().state == ConnectionState::Open && !old(self).spec_common().local_close_sent
                && encode_utf8(text@).len() <= old(self).spec_common().config.max_message_size
                ==> (r is Ok || r == Err::<(), WsError>(WsError::RandomFailed)),
            r is Ok ==> crate::ws_connection::frame_sent(old(self).spec_common().tx(), final(self).spec_common().tx(),
                crate::ws_frame::fresh_header(true, crate::ws_ids::WsOpcode::Text, encode_utf8(text@).len()),
                encode_utf8(text@), Role::Client),
    {
        self.common.send_text(text)
    }

    /// Sends a binary message (see [`CommonState::send_binary`]).
    pub fn send_binary(&mut self, data: &[u8]) -> (r: WsResult<()>)
        requires
            old(self).wf(),
        ensures
            final(self).wf(),
            final(self).spec_handshake() == old(self).spec_handshake(),
            final(self).spec_common().same_but_tx(&old(self).spec_common()),
            r is Err ==> final(self).spec_common().tx() == old(self).spec_common().tx(),
            !(old(self).spec_common().state == ConnectionState::Open && !old(self).spec_common().local_close_sent)
                ==> (r matches Err(e) && invalid_state_with(e, data_refusal_text(old(self).spec_common().state))),
            old(self).spec_common().state == ConnectionState::Open && !old(self).spec_common().local_close_sent
                && data@.len() > old(self).spec_common().config.max_message_size
                ==> r == Err::<(), WsError>(WsError::MessageTooBig {
                    size: data@.len() as usize,
                    limit: old(self).spec_common().config.max_message_size,
                }),
            old(self).spec_common().state == ConnectionState::Open && !old(self).spec_common().local_close_sent
                && data@.len() <= old(self).spec_common().config.max_message_size
                ==> (r is Ok || r == Err::<(), WsError>(WsError::RandomFailed)),
            r is Ok ==> crate::ws_connection::frame_sent(old(self).spec_common().tx(), final(self).spec_common().tx(),
                crate::ws_frame::fresh_header(true, crate::ws_ids::WsOpcode::Binary, data@.len()), data@, Role::Client),
    {
        self.common.send_binary(data)
    }

    /// Sends a Ping control frame (see [`CommonState::send_ping`]).
    pub fn send_ping(&mut self, payload: &[u8]) -> (r: WsResult<()>)
        requires
            old(self).wf(),
        ensures
            final(self).wf(),
            final(self).spec_handshake() == old(self).spec_handshake(),
            final(self).spec_common().same_but_tx(&old(self).spec_common()),
            r is Err ==> final(self).spec_common().tx() == old(self).spec_common().tx(),
            !(old(self).spec_common().state == ConnectionState::Open || old(self).spec_common().state == ConnectionState::Closing)
                ==> (r matches Err(e) && invalid_state_with(e, "cannot ping in current state"@)),
            (old(self).spec_common().state == ConnectionState::Open || old(self).spec_common().state == ConnectionState::Closing)
                && old(self).spec_common().local_close_sent
                ==> (r matches Err(e) && invalid_state_with(e, "cannot ping after Close"@)),
            (old(self).spec_common().state == ConnectionState::Open || old(self).spec_common().state
                == ConnectionState::Closing) && !old(self).spec_common().local_close_sent && payload@.len() > 125
                ==> (r matches Err(e) && protocol_error_with(e, "ping payload exceeds 125 bytes"@)),
            (old(self).spec_common().state == ConnectionState::Open || old(self).spec_common().state
                == ConnectionState::Closing) && !old(self).spec_common().local_close_sent && payload@.len() <= 125
                ==> (r is Ok || r == Err::<(), WsError>(WsError::RandomFailed)),
            r is Ok ==> crate::ws_connection::frame_sent(old(self).spec_common().tx(), final(self).spec_common().tx(),
                crate::ws_frame::fresh_header(true, crate::ws_ids::WsOpcode::Ping, payload@.len()), payload@, Role::Client),
    {
        self.common.send_ping(payload)
    }

    /// Sends a Pong control frame (see [`CommonState::send_pong`]).
    pub fn send_pong(&mut self, payload: &[u8]) -> (r: WsResult<()>)
        requires
            old(self).wf(),
        ensures
            final(self).wf(),
            final(self).spec_handshake() == old(self).spec_handshake(),
            final(self).spec_common().same_but_tx(&old(self).spec_common()),
            r is Err ==> final(self).spec_common().tx() == old(self).spec_common().tx(),
            (old(self).spec_common().state == ConnectionState::Closed || old(self).spec_common().state
                == ConnectionState::Connecting)
                ==> (r matches Err(e) && invalid_state_with(e, "cannot pong in current state"@)),
            !(old(self).spec_common().state == ConnectionState::Closed || old(self).spec_common().state
                == ConnectionState::Connecting) && payload@.len() > 125
                ==> (r matches Err(e) && protocol_error_with(e, "pong payload exceeds 125 bytes"@)),
            !(old(self).spec_common().state == ConnectionState::Closed || old(self).spec_common().state
                == ConnectionState::Connecting) && payload@.len() <= 125
                ==> (r is Ok || r == Err::<(), WsError>(WsError::RandomFailed)),
            r is Ok ==> crate::ws_connection::frame_sent(old(self).spec_common().tx(), final(self).spec_common().tx(),
                crate::ws_frame::fresh_header(true, crate::ws_ids::WsOpcode::Pong, payload@.len()), payload@, Role::Client),
    {
        self.common.send_pong(payload)
    }

    /// Sends an arbitrary frame (see [`CommonState::send_frame`]).
    pub fn send_frame(&mut self, frame: &WsFrame) -> (r: WsResult<()>)
        requires
            old(self).wf(),
        ensures
            final(self).wf(),
            final(self).spec_handshake() == old(self).spec_handshake(),
            final(self).spec_common().same_but_tx(&old(self).spec_common()),
            old(self).spec_common().state == ConnectionState::Closed ==> r == Err::<(), WsError>(WsError::Closed),
            old(self).spec_common().state != ConnectionState::Closed && old(self).spec_common().local_close_sent
                && frame.header.opcode.spec_is_data()
                ==> (r matches Err(e) && invalid_state_with(e, "cannot send data frames after Close"@)),
            old(self).spec_common().state != ConnectionState::Closed && old(self).spec_common().local_close_sent
                && frame.header.opcode == crate::ws_ids::WsOpcode::Continuation
                ==> (r matches Err(e) && invalid_state_with(e, "cannot send continuation after Close"@)),
            old(self).spec_common().state != ConnectionState::Closed && !(old(self).spec_common().local_close_sent
                && (frame.header.opcode.spec_is_data() || frame.header.opcode == crate::ws_ids::WsOpcode::Continuation))
                ==> (r is Ok || r == Err::<(), WsError>(WsError::RandomFailed)),
            r is Ok ==> crate::ws_connection::frame_sent(old(self).spec_common().tx(), final(self).spec_common().tx(),
                frame.header, frame.payload@, Role::Client),
            r is Err ==> final(self).spec_common().tx() == old(self).spec_common().tx(),
    {
        self.common.send_frame(frame)
    }

    /// Starts the closing handshake (see [`CommonState::close`]).
    pub fn close(&mut self, code: WsCloseCode, reason: &str) -> (r: WsResult<()>)
        requires
            old(self).wf(),
        ensures
            final(self).wf(),
            final(self).spec_handshake() == old(self).spec_handshake(),
            final(self).spec_common().rx() == old(self).spec_common().rx(),
            final(self).spec_common().queued() == old(self).spec_common().queued(),
            old(self).spec_common().local_close_sent || old(self).spec_common().state == ConnectionState::Closed
                ==> r is Ok && final(self).spec_common() == old(self).spec_common(),
            !old(self).spec_common().local_close_sent && old(self).spec_common().state == ConnectionState::Connecting
                ==> r is Ok && final(self).spec_common().state == ConnectionState::Closed
                && final(self).spec_common().tx() == old(self).spec_common().tx(),
            !old(self).spec_common().local_close_sent && (old(self).spec_common().state == ConnectionState::Open
                || old(self).spec_common().state == ConnectionState::Closing) ==> match crate::ws_frame::close_payload(
                Some(code),
                encode_utf8(reason@),
            ) {
                None => (r matches Err(e) && protocol_error_with(e, close_payload_error_text(Some(code))))
                    && final(self).spec_common().tx()
                    == old(self).spec_common().tx(),
                Some(p) => (r is Ok || r == Err::<(), WsError>(WsError::RandomFailed)) && (r is Ok
                    ==> crate::ws_connection::frame_sent(old(self).spec_common().tx(), final(self).spec_common().tx(),
                    crate::ws_frame::fresh_header(true, crate::ws_ids::WsOpcode::Close, p.len()), p, Role::Client)
                    && final(self).spec_common().local_close_sent && final(self).spec_common().state == (
                    if old(self).spec_common().peer_close_received {
                        ConnectionState::Closed
                    } else {
                        ConnectionState::Closing
                    })),
            },
    {
        self.common.close(code, reason)
    }

    /// Pops the next complete message; fails with the recorded error once
    /// the connection has failed.
    pub fn read_message(&mut self) -> (r: WsResult<Option<WsMessage>>)
        requires
            old(self).wf(),
        ensures
            final(self).wf(),
            final(self).spec_handshake() == old(self).spec_handshake(),
            old(self).spec_common().error matches Some(e) ==> (r matches Err(e2) && same_error(e2, e))
                && final(self).spec_common() == old(self).spec_common(),
            old(self).spec_common().error is None ==> {
                let q = old(self).spec_common().queued();
                &&& q.len() == 0 ==> r == Ok::<Option<WsMessage>, WsError>(None)
                    && final(self).spec_common().queued() == q
                &&& q.len() > 0 ==> r == Ok::<Option<WsMessage>, WsError>(Some(q[0]))
                    && final(self).spec_common().queued() == q.subrange(1, q.len() as int)
                &&& final(self).spec_common().rx() == old(self).spec_common().rx()
                &&& final(self).spec_common().tx() == old(self).spec_common().tx()
                &&& final(self).spec_common().same_flags(&old(self).spec_common())
            },
    {
        match &self.common.error {
            Some(e) => {
                return Err(e.clone());
            },
            None => {},
        }
        Ok(self.common.read_message())
    }

    /// Peer close code from the first received Close frame.
    pub fn peer_close_code(&self) -> (r: Option<WsCloseCode>)
        ensures
            r == self.spec_common().peer_close_code,
    {
        self.common.peer_close_code
    }

    /// Peer close reason from the first received Close frame.
    pub fn peer_close_reason(&self) -> (r: Option<&str>)
        ensures
            opt_str(r) == opt_text(self.spec_common().peer_close_reason),
    {
        match &self.common.peer_close_reason {
            Some(s) => Some(s.as_str()),
            None => None,
        }
    }

    /// Immutable access to the shared state (for diagnostics).
    pub fn common(&self) -> (r: &CommonState)
        ensures
            *r == self.spec_common(),
    {
        &self.common
    }
}

} // verus!
