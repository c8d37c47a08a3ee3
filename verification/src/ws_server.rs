//! WebSocket server connection (RFC 6455 §4.2 / §5).
//!
//! [`ServerConnection`] performs no I/O: feed request bytes with
//! [`ServerConnection::feed`], drain response and frame bytes with
//! [`ServerConnection::take_write`], and advance the protocol with
//! [`ServerConnection::process`].

use vstd::prelude::*;
use vstd::utf8::*;
use crate::ws_connection::{
    CommonState, ConnectionConfig, ConnectionState, IoState, data_refusal_text, frames_processed, fresh_common, opened,
};
use crate::ws_error::{WsError, WsResult, same_error, invalid_state_with};
use crate::ws_frame::close_payload_error_text;
use crate::ws_ids::protocol_error_with;
use crate::ws_frame::WsFrame;
use crate::ws_handshake::{
    WsServerHandshake, accept_for, first_mutual, head_chars, head_headers, header_end, key_ok, opt_str, opt_text,
    parsed_key, parsed_path, parsed_protocols, request_basics_ok, request_error_text, request_rejection, request_valid,
    response_text, strs,
    try_parse_request, value_or_default, value_or_empty, version_rejection_text,
};
use crate::ws_ids::{Role, VERSION, WsCloseCode};
use crate::ws_base64::{b64_decode, b64_error_text};
use crate::ws_message::WsMessage;
use crate::header_map::str_eq;
use crate::text::{decimal_chars, decimal_string};

verus! {

broadcast use vstd::seq::group_seq_axioms;

/// What one processing step does while the server waits for the client's
/// request: nothing until the header block is complete; a malformed block
/// fails with nothing changed; a request that fails the checks closes the
/// connection (after queueing a `400` that names the supported version when
/// the version was wrong); an accepted one queues the `101` response and
/// opens the connection, and frames that arrived behind it are processed
/// at once.
pub open spec fn server_handshake_step(
    c0: CommonState,
    h0: WsServerHandshake,
    c1: CommonState,
    h1: WsServerHandshake,
    r: WsResult<IoState>,
) -> bool {
    let rx = c0.rx();
    match header_end(rx) {
        None => r == Ok::<IoState, WsError>(c0.spec_io_state()) && c1 == c0 && h1 == h0,
        Some(e) => {
            let cs = head_chars(rx, e);
            if !(valid_utf8(rx.subrange(0, e)) && request_valid(cs)) {
                &&& r matches Err(WsError::Handshake(m)) && m@ == if valid_utf8(rx.subrange(0, e)) {
                    request_error_text(cs)
                } else {
                    "request headers are not valid UTF-8"@
                }
                &&& c1 == c0
                &&& h1 == h0
            } else {
                let rest = rx.subrange(e + 4, rx.len() as int);
                let h = head_headers(cs).unwrap();
                let key = parsed_key(cs);
                &&& h1.supported_protocols == h0.supported_protocols
                &&& if !(request_basics_ok(h, key) && key_ok(key)) {
                    let bad_version = value_or_empty(h, "sec-websocket-version"@) != decimal_chars(VERSION as nat);
                    &&& if request_basics_ok(h, key) && b64_decode(encode_utf8(key)) is None {
                        r matches Err(WsError::Decode(m)) && m@ == b64_error_text(encode_utf8(key))
                    } else {
                        r matches Err(WsError::Handshake(m)) && m@ == request_rejection(h, key)
                    }
                    &&& h1 == h0
                    &&& c1.state == ConnectionState::Closed
                    &&& c1.rx() == rest
                    &&& c1.tx() == c0.tx() + (if bad_version {
                        encode_utf8(version_rejection_text())
                    } else {
                        seq![]
                    })
                    &&& c1.queued() == c0.queued()
                    &&& c1.error == c0.error
                    &&& c1.protocol == c0.protocol
                } else {
                    let p = first_mutual(parsed_protocols(cs), strs(h0.supported_protocols@));
                    &&& h1.request matches Some(req) && req.path@ == parsed_path(cs) && req.key@ == key
                        && req.headers@ == h
                    &&& opt_text(h1.selected_protocol) == p
                    &&& exists|m: CommonState|
                        opened(c0, m, rest, c0.tx() + encode_utf8(response_text(accept_for(key), p)), p)
                        && #[trigger] frames_processed(m, c1, r)
                }
            }
        },
    }
}

/// WebSocket server connection.
///
/// Lifecycle: [`ServerConnection::accept`] creates a connection waiting for
/// the client's Upgrade request; feed it and call
/// [`ServerConnection::process`]; send the [`ServerConnection::take_write`]
/// bytes (the `101` response) back; exchange messages; shut down with
/// [`ServerConnection::close`].
pub struct ServerConnection {
    common: CommonState,
    handshake: WsServerHandshake,
}

impl ServerConnection {
    /// The shared connection state.
    pub closed spec fn spec_common(&self) -> CommonState {
        self.common
    }

    /// The opening handshake.
    pub closed spec fn spec_handshake(&self) -> WsServerHandshake {
        self.handshake
    }

    /// The shared state is consistent and belongs to a server.
    pub closed spec fn wf(&self) -> bool {
        self.common.wf() && self.common.role == Role::Server
    }

    /// Creates a server connection with the default configuration, willing
    /// to select one of `protocols` (none when `None`).
    pub fn accept(protocols: Option<Vec<String>>) -> (r: WsResult<ServerConnection>)
        ensures
            r matches Ok(c) && c.wf() && c.spec_handshake().supported_protocols@ == (match protocols {
                Some(v) => v@,
                None => Seq::<String>::empty(),
            }) && c.spec_handshake().request is None && c.spec_handshake().selected_protocol is None
                && fresh_common(c.spec_common(), Role::Server, c.spec_common().config, Seq::<u8>::empty())
                && c.spec_common().config.max_frame_size == crate::ws_ids::DEFAULT_MAX_FRAME_SIZE
                && c.spec_common().config.max_message_size == crate::ws_ids::DEFAULT_MAX_MESSAGE_SIZE
                && c.spec_common().config.auto_pong && c.spec_common().config.auto_close_reply,
    {
        let supported = match protocols {
            Some(v) => v,
            None => Vec::new(),
        };
        Self::accept_with_config(supported, ConnectionConfig::default())
    }

    /// Like [`ServerConnection::accept`], with a configuration.
    pub fn accept_with_config(protocols: Vec<String>, config: ConnectionConfig) -> (r: WsResult<ServerConnection>)
        ensures
            r matches Ok(c) && c.wf() && c.spec_handshake().supported_protocols == protocols
                && c.spec_handshake().request is None && c.spec_handshake().selected_protocol is None
                && fresh_common(c.spec_common(), Role::Server, config, Seq::<u8>::empty()),
    {
        Ok(ServerConnection { common: CommonState::new(Role::Server, config), handshake: WsServerHandshake::new(protocols) })
    }

    /// Request-target path of the accepted request.
    pub fn path(&self) -> (r: Option<&str>)
        ensures
            match self.spec_handshake().request {
                Some(req) => opt_str(r) == Some(req.path@),
                None => r is None,
            },
    {
        match &self.handshake.request {
            Some(req) => Some(req.path.as_str()),
            None => None,
        }
    }

    /// Negotiated subprotocol after a successful handshake.
    pub fn protocol(&self) -> (r: Option<&str>)
        ensures
            opt_str(r) == opt_text(self.spec_common().protocol),
    {
        match &self.common.protocol {
            Some(p) => Some(p.as_str()),
            None => None,
        }
    }

    /// Current connection lifecycle state.
    pub fn state(&self) -> (r: ConnectionState)
        ensures
            r == self.spec_common().state,
    {
        self.common.state
    }

    /// Returns `true` when the opening handshake has completed.
    pub fn is_open(&self) -> (r: bool)
        ensures
            r == (self.spec_common().state == ConnectionState::Open),
    {
        self.common.is_open()
    }

    /// Returns `true` while the handshake is in progress.
    pub fn is_handshaking(&self) -> (r: bool)
        ensures
            r == (self.spec_common().state == ConnectionState::Connecting),
    {
        self.common.is_connecting()
    }

    /// Returns `true` when the connection is fully closed.
    pub fn is_closed(&self) -> (r: bool)
        ensures
            r == (self.spec_common().state == ConnectionState::Closed),
    {
        self.common.is_closed()
    }

    /// Returns `true` when outbound bytes are pending.
    pub fn wants_write(&self) -> (r: bool)
        ensures
            r == (self.spec_common().tx().len() > 0),
    {
        self.common.wants_write()
    }

    /// Returns `true` when more network input may be useful.
    pub fn wants_read(&self) -> (r: bool)
        ensures
            r == (self.spec_common().state != ConnectionState::Closed && !self.spec_common().peer_close_received),
    {
        self.common.wants_read()
    }

    /// Feeds transport bytes received from the peer; refused with `Closed`
    /// once the connection is closed (an empty feed is then a no-op).
    pub fn feed(&mut self, data: &[u8]) -> (r: WsResult<()>)
        requires
            old(self).wf(),
        ensures
            final(self).wf(),
            final(self).spec_handshake() == old(self).spec_handshake(),
            old(self).spec_common().state == ConnectionState::Closed ==> final(self).spec_common() == old(self).spec_common()
                && (r == if data@.len() == 0 { Ok::<(), WsError>(()) } else { Err(WsError::Closed) }),
            old(self).spec_common().state != ConnectionState::Closed ==> r is Ok
                && final(self).spec_common().rx() == old(self).spec_common().rx() + data@
                && final(self).spec_common().tx() == old(self).spec_common().tx()
                && final(self).spec_common().queued() == old(self).spec_common().queued()
                && final(self).spec_common().fragment == old(self).spec_common().fragment
                && final(self).spec_common().same_flags(&old(self).spec_common()),
    {
        if self.common.is_closed() && data.len() == 0 {
            return Ok(());
        }
        if self.common.is_closed() {
            return Err(WsError::Closed);
        }
        self.common.feed(data);
        Ok(())
    }

    /// Drains all buffered outbound transport bytes.
    pub fn take_write(&mut self) -> (r: Vec<u8>)
        requires
            old(self).wf(),
        ensures
            final(self).wf(),
            r@ == old(self).spec_common().tx(),
            final(self).spec_common().tx() == Seq::<u8>::empty(),
            final(self).spec_common().rx() == old(self).spec_common().rx(),
            final(self).spec_common().queued() == old(self).spec_common().queued(),
            final(self).spec_common().same_flags(&old(self).spec_common()),
            final(self).spec_handshake() == old(self).spec_handshake(),
    {
        self.common.take_write()
    }

    /// Processes buffered input: completes the handshake (see
    /// [`server_handshake_step`]) and then parses frames (see
    /// [`frames_processed`]).
    pub fn process(&mut self) -> (r: WsResult<IoState>)
        requires
            old(self).wf(),
        ensures
            final(self).wf(),
            old(self).spec_common().state == ConnectionState::Connecting ==> server_handshake_step(
                old(self).spec_common(),
                old(self).spec_handshake(),
                final(self).spec_common(),
                final(self).spec_handshake(),
                r,
            ),
            (old(self).spec_common().state == ConnectionState::Open || old(self).spec_common().state
                == ConnectionState::Closing) ==> frames_processed(old(self).spec_common(), final(self).spec_common(), r)
                && final(self).spec_handshake() == old(self).spec_handshake(),
            old(self).spec_common().state == ConnectionState::Closed ==> r == Ok::<IoState, WsError>(
                old(self).spec_common().spec_io_state())
                && final(self).spec_common() == old(self).spec_common()
                && final(self).spec_handshake() == old(self).spec_handshake(),
    {
        if self.common.is_connecting() {
            let ghost c0 = self.common;
            let parsed = try_parse_request(self.common.rx_buf());
            match parsed {
                Err(e) => {
                    return Err(e);
                },
                Ok(None) => {
                    return Ok(IoState {
                        pending_rx: self.common.rx_buf().len(),
                        pending_tx: self.common.pending_tx_len(),
                        pending_messages: self.common.pending_messages(),
                    });
                },
                Ok(Some((request, consumed))) => {
                    let ghost e = consumed - 4;
                    let ghost rest = c0.rx().subrange(e + 4, c0.rx().len() as int);
                    proof {
                        crate::ws_handshake::lemma_header_end_from_bound(c0.rx(), 0);
                    }
                    self.common.consume_rx(consumed);
                    proof {
                        assert(self.common.rx() =~= rest);
                    }
                    let version = value_or_default(&request.headers, "sec-websocket-version");
                    let wanted = decimal_string(VERSION as u64);
                    let bad_version = !str_eq(version.as_str(), wanted.as_str());
                    match self.handshake.accept_request(request) {
                        Ok(()) => {},
                        Err(err) => {
                            if bad_version {
                                let rejection = WsServerHandshake::encode_version_rejection();
                                self.common.queue_raw(rejection.as_slice());
                            } else {
                                proof {
                                    assert(self.common.tx() =~= c0.tx() + Seq::<u8>::empty());
                                }
                            }
                            self.common.state = ConnectionState::Closed;
                            return Err(err);
                        },
                    }
                    let response = match self.handshake.encode_response() {
                        Ok(bytes) => bytes,
                        Err(err) => {
                            return Err(err);
                        },
                    };
                    self.common.queue_raw(response.as_slice());
                    let selected = match &self.handshake.selected_protocol {
                        Some(p) => Some(p.clone()),
                        None => None,
                    };
                    self.common.mark_open(selected);
                    let ghost m = self.common;
                    proof {
                        let key = crate::ws_handshake::parsed_key(head_chars(c0.rx(), e));
                        let p = opt_text(self.handshake.selected_protocol);
                        assert(opened(c0, m, rest, c0.tx() + encode_utf8(response_text(accept_for(key), p)), p));
                    }
                    let r = self.common.process_frames();
                    proof {
                        assert(frames_processed(m, self.common, r));
                    }
                    return r;
                },
            }
        }
        if self.common.is_open() || self.common.state == ConnectionState::Closing {
            return self.common.process_frames();
        }
        Ok(IoState {
            pending_rx: self.common.rx_buf().len(),
            pending_tx: self.common.pending_tx_len(),
            pending_messages: self.common.pending_messages(),
        })
    }

    /// Sends a UTF-8 text message (see [`CommonState::send_text`]).
    pub fn send_text(&mut self, text: &str) -> (r: WsResult<()>)
        requires
            old(self).wf(),
        ensures
            final(self).wf(),
            final(self).spec_handshake() == old(self).spec_handshake(),
            final(self).spec_common().same_but_tx(&old(self).spec_common()),
            r is Err ==> final(self).spec_common().tx() == old(self).spec_common().tx(),
            !(old(self).spec_common().state == ConnectionState::Open && !old(self).spec_common().local_close_sent)
                ==> (r matches Err(e) && invalid_state_with(e, data_refusal_text(old(self).spec_common().state))),
            old(self).spec_common().state == ConnectionState::Open && !old(self).spec_common().local_close_sent
                && encode_utf8(text@).len() > old(self).spec_common().config.max_message_size
                ==> r == Err::<(), WsError>(WsError::MessageTooBig {
                    size: encode_utf8(text@).len() as usize,
                    limit: old(self).spec_common().config.max_message_size,
                }),
            old(self).spec_common().state == ConnectionState::Open && !old(self).spec_common().local_close_sent
                && encode_utf8(text@).len() <= old(self).spec_common().config.max_message_size
                ==> r is Ok,
            r is Ok ==> crate::ws_connection::frame_sent(old(self).spec_common().tx(), final(self).spec_common().tx(),
                crate::ws_frame::fresh_header(true, crate::ws_ids::WsOpcode::Text, encode_utf8(text@).len()),
                encode_utf8(text@), Role::Server),
    {
        self.common.send_text(text)
    }

    /// Sends a binary message (see [`CommonState::send_binary`]).
    pub fn send_binary(&mut self, data: &[u8]) -> (r: WsResult<()>)
        requires
            old(self).wf(),
        ensures
            final(self).wf(),
            final(self).spec_handshake() == old(self).spec_handshake(),
            final(self).spec_common().same_but_tx(&old(self).spec_common()),
            r is Err ==> final(self).spec_common().tx() == old(self).spec_common().tx(),
            !(old(self).spec_common().state == ConnectionState::Open && !old(self).spec_common().local_close_sent)
                ==> (r matches Err(e) && invalid_state_with(e, data_refusal_text(old(self).spec_common().state))),
            old(self).spec_common().state == ConnectionState::Open && !old(self).spec_common().local_close_sent
                && data@.len() > old(self).spec_common().config.max_message_size
                ==> r == Err::<(), WsError>(WsError::MessageTooBig {
                    size: data@.len() as usize,
                    limit: old(self).spec_common().config.max_message_size,
                }),
            old(self).spec_common().state == ConnectionState::Open && !old(self).spec_common().local_close_sent
                && data@.len() <= old(self).spec_common().config.max_message_size
                ==> r is Ok,
            r is Ok ==> crate::ws_connection::frame_sent(old(self).spec_common().tx(), final(self).spec_common().tx(),
                crate::ws_frame::fresh_header(true, crate::ws_ids::WsOpcode::Binary, data@.len()), data@, Role::Server),
    {
        self.common.send_binary(data)
    }

    /// Sends a Ping control frame (see [`CommonState::send_ping`]).
    pub fn send_ping(&mut self, payload: &[u8]) -> (r: WsResult<()>)
        requires
            old(self).wf(),
        ensures
            final(self).wf(),
            final(self).spec_handshake() == old(self).spec_handshake(),
            final(self).spec_common().same_but_tx(&old(self).spec_common()),
            r is Err ==> final(self).spec_common().tx() == old(self).spec_common().tx(),
            !(old(self).spec_common().state == ConnectionState::Open || old(self).spec_common().state == ConnectionState::Closing)
                ==> (r matches Err(e) && invalid_state_with(e, "cannot ping in current state"@)),
            (old(self).spec_common().state == ConnectionState::Open || old(self).spec_common().state == ConnectionState::Closing)
                && old(self).spec_common().local_close_sent
                ==> (r matches Err(e) && invalid_state_with(e, "cannot ping after Close"@)),
            (old(self).spec_common().state == ConnectionState::Open || old(self).spec_common().state
                == ConnectionState::Closing) && !old(self).spec_common().local_close_sent && payload@.len() > 125
                ==> (r matches Err(e) && protocol_error_with(e, "ping payload exceeds 125 bytes"@)),
            (old(self).spec_common().state == ConnectionState::Open || old(self).spec_common().state
                == ConnectionState::Closing) && !old(self).spec_common().local_close_sent && payload@.len() <= 125
                ==> r is Ok,
            r is Ok ==> crate::ws_connection::frame_sent(old(self).spec_common().tx(), final(self).spec_common().tx(),
                crate::ws_frame::fresh_header(true, crate::ws_ids::WsOpcode::Ping, payload@.len()), payload@, Role::Server),
    {
        self.common.send_ping(payload)
    }

    /// Sends a Pong control frame (see [`CommonState::send_pong`]).
    pub fn send_pong(&mut self, payload: &[u8]) -> (r: WsResult<()>)
        requires
            old(self).wf(),
        ensures
            final(self).wf(),
            final(self).spec_handshake() == old(self).spec_handshake(),
            final(self).spec_common().same_but_tx(&old(self).spec_common()),
            r is Err ==> final(self).spec_common().tx() == old(self).spec_common().tx(),
            (old(self).spec_common().state == ConnectionState::Closed || old(self).spec_common().state
                == ConnectionState::Connecting)
                ==> (r matches Err(e) && invalid_state_with(e, "cannot pong in current state"@)),
            !(old(self).spec_common().state == ConnectionState::Closed || old(self).spec_common().state
                == ConnectionState::Connecting) && payload@.len() > 125
                ==> (r matches Err(e) && protocol_error_with(e, "pong payload exceeds 125 bytes"@)),
            !(old(self).spec_common().state == ConnectionState::Closed || old(self).spec_common().state
                == ConnectionState::Connecting) && payload@.len() <= 125
                ==> r is Ok,
            r is Ok ==> crate::ws_connection::frame_sent(old(self).spec_common().tx(), final(self).spec_common().tx(),
                crate::ws_frame::fresh_header(true, crate::ws_ids::WsOpcode::Pong, payload@.len()), payload@, Role::Server),
    {
        self.common.send_pong(payload)
    }

    /// Sends an arbitrary frame (see [`CommonState::send_frame`]).
    pub fn send_frame(&mut self, frame: &WsFrame) -> (r: WsResult<()>)
        requires
            old(self).wf(),
        ensures
            final(self).wf(),
            final(self).spec_handshake() == old(self).spec_handshake(),
            final(self).spec_common().same_but_tx(&old(self).spec_common()),
            old(self).spec_common().state == ConnectionState::Closed ==> r == Err::<(), WsError>(WsError::Closed),
            old(self).spec_common().state != ConnectionState::Closed && old(self).spec_common().local_close_sent
                && frame.header.opcode.spec_is_data()
                ==> (r matches Err(e) && invalid_state_with(e, "cannot send data frames after Close"@)),
            old(self).spec_common().state != ConnectionState::Closed && old(self).spec_common().local_close_sent
                && frame.header.opcode == crate::ws_ids::WsOpcode::Continuation
                ==> (r matches Err(e) && invalid_state_with(e, "cannot send continuation after Close"@)),
            old(self).spec_common().state != ConnectionState::Closed && !(old(self).spec_common().local_close_sent
                && (frame.header.opcode.spec_is_data() || frame.header.opcode == crate::ws_ids::WsOpcode::Continuation))
                ==> r is Ok,
            r is Ok ==> crate::ws_connection::frame_sent(old(self).spec_common().tx(), final(self).spec_common().tx(),
                frame.header, frame.payload@, Role::Server),
            r is Err ==> final(self).spec_common().tx() == old(self).spec_common().tx(),
    {
        self.common.send_frame(frame)
    }

    /// Starts the closing handshake (see [`CommonState::close`]).
    pub fn close(&mut self, code: WsCloseCode, reason: &str) -> (r: WsResult<()>)
        requires
            old(self).wf(),
        ensures
            final(self).wf(),
            final(self).spec_handshake() == old(self).spec_handshake(),
            final(self).spec_common().rx() == old(self).spec_common().rx(),
            final(self).spec_common().queued() == old(self).spec_common().queued(),
            old(self).spec_common().local_close_sent || old(self).spec_common().state == ConnectionState::Closed
                ==> r is Ok && final(self).spec_common() == old(self).spec_common(),
            !old(self).spec_common().local_close_sent && old(self).spec_common().state == ConnectionState::Connecting
                ==> r is Ok && final(self).spec_common().state == ConnectionState::Closed
                && final(self).spec_common().tx() == old(self).spec_common().tx(),
            !old(self).spec_common().local_close_sent && (old(self).spec_common().state == ConnectionState::Open
                || old(self).spec_common().state == ConnectionState::Closing) ==> match crate::ws_frame::close_payload(
                Some(code),
                encode_utf8(reason@),
            ) {
                None => (r matches Err(e) && protocol_error_with(e, close_payload_error_text(Some(code))))
                    && final(self).spec_common().tx()
                    == old(self).spec_common().tx(),
                Some(p) => r is Ok && (r is Ok
                    ==> crate::ws_connection::frame_sent(old(self).spec_common().tx(), final(self).spec_common().tx(),
                    crate::ws_frame::fresh_header(true, crate::ws_ids::WsOpcode::Close, p.len()), p, Role::Server)
                    && final(self).spec_common().local_close_sent && final(self).spec_common().state == (
                    if old(self).spec_common().peer_close_received {
                        ConnectionState::Closed
                    } else {
                        ConnectionState::Closing
                    })),
            },
    {
        self.common.close(code, reason)
    }

    /// Pops the next complete message; fails with the recorded error once
    /// the connection has failed.
    pub fn read_message(&mut self) -> (r: WsResult<Option<WsMessage>>)
        requires
            old(self).wf(),
        ensures
            final(self).wf(),
            final(self).spec_handshake() == old(self).spec_handshake(),
            old(self).spec_common().error matches Some(e) ==> (r matches Err(e2) && same_error(e2, e))
                && final(self).spec_common() == old(self).spec_common(),
            old(self).spec_common().error is None ==> {
                let q = old(self).spec_common().queued();
                &&& q.len() == 0 ==> r == Ok::<Option<WsMessage>, WsError>(None)
                    && final(self).spec_common().queued() == q
                &&& q.len() > 0 ==> r == Ok::<Option<WsMessage>, WsError>(Some(q[0]))
                    && final(self).spec_common().queued() == q.subrange(1, q.len() as int)
                &&& final(self).spec_common().rx() == old(self).spec_common().rx()
                &&& final(self).spec_common().tx() == old(self).spec_common().tx()
                &&& final(self).spec_common().same_flags(&old(self).spec_common())
            },
    {
        match &self.common.error {
            Some(e) => {
                return Err(e.clone());
            },
            None => {},
        }
        Ok(self.common.read_message())
    }

    /// Peer close code from the first received Close frame.
    pub fn peer_close_code(&self) -> (r: Option<WsCloseCode>)
        ensures
            r == self.spec_common().peer_close_code,
    {
        self.common.peer_close_code
    }

    /// Peer close reason from the first received Close frame.
    pub fn peer_close_reason(&self) -> (r: Option<&str>)
        ensures
            opt_str(r) == opt_text(self.spec_common().peer_close_reason),
    {
        match &self.common.peer_close_reason {
            Some(s) => Some(s.as_str()),
            None => None,
        }
    }

    /// Immutable access to the shared state (for diagnostics).
    pub fn common(&self) -> (r: &CommonState)
        ensures
            *r == self.spec_common(),
    {
        &self.common
    }
}

} // verus!
