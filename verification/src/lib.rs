//! WebSocket protocol engine (RFC 6455) and desktop-portal helpers, with
//! their behaviour stated in contracts and proved.

pub mod outside;
pub mod ws_error;
pub mod ws_ids;
pub mod text;
pub mod http_text;
pub mod http_block;
pub mod header_map;
pub mod ws_base64;
pub mod ws_utf8;
pub mod ws_frame;
pub mod ws_message;
pub mod ws_connection;
pub mod ws_handshake;
pub mod ws_interop;
pub mod ws_client;
pub mod ws_server;
pub mod ws_stream;
pub mod xdp_error;
pub mod xdp_permissions;
pub mod xdp_method_info;
pub mod xdp_app_info;
pub mod xdp_context;
pub mod xdp_documents;
pub mod xdp_flatpak;
pub mod xdp_portal_config;
pub mod xdp_request;
pub mod xdp_session;

pub use crate::ws_client::ClientConnection as WsClientConnection;
pub use crate::ws_connection::{
    ConnectionConfig as WsConnectionConfig, ConnectionState as WsConnectionState, IoState as WsIoState,
};
pub use crate::ws_error::{WsError, WsResult};
pub use crate::ws_frame::{WsFrame, WsFrameHeader};
pub use crate::ws_handshake::{
    HandshakeRequest, WsClientHandshake, WsHandshakeResponse, WsServerHandshake, accept_key_from_nonce,
    compute_accept_key, generate_key_nonce,
};
pub use crate::ws_ids::{DEFAULT_MAX_FRAME_SIZE, DEFAULT_MAX_MESSAGE_SIZE, GUID, Role, VERSION, WsCloseCode, WsOpcode};
pub use crate::ws_message::WsMessage;
pub use crate::ws_server::ServerConnection as WsServerConnection;
