# codevar_wsocket

A sans-I/O WebSocket engine (RFC 6455) and helpers for desktop portals,
written in Verus: every function in `src/` carries a contract that Verus
proves.

- `src/ws_*.rs`: identifiers, Base64, UTF-8 validation, frames, the opening
  handshake, the shared connection state machine, client and server
  connections, and the byte-stream decisions. `ws_interop.rs` proves that a
  client and a server of this library complete the handshake with each
  other; `ws_connection.rs` proves that a text message one side sends is the
  message the other side reads, and that feeding received bytes one at a
  time, processing after each, ends where feeding them all at once does
  when that single processing succeeds and the connection stays open
  (each one-byte call then succeeds too, save that a client may fail to
  draw a masking key for a Pong).
- `src/http_text.rs`, `src/http_block.rs`, `src/header_map.rs`: the text
  model of HTTP header blocks and what it reads back from text written line
  by line.
- `src/xdp_*.rs`: portal errors, permissions, method table, application
  identity (host, snap, and flatpak from the values its metadata holds),
  document URIs and registration plans, portal configuration choice,
  request and session handle paths and tokens, flatpak instance records
  built from the values of their `info` files, and the decisions behind
  resolving an open file descriptor to a path.
- Not here: the portal's D-Bus interfaces and their method handlers
  (registration, introspection, per-portal option filtering), reading
  key files, loading the portal configuration from disk, listing flatpak
  instances, validating dynamic launcher entries and generating request
  tokens. They rest on a D-Bus layer, a key-file reader and option
  helpers that are not part of this project; the library takes the values
  they would produce as plain arguments.
- `src/outside.rs`: the trusted contracts of the calls into `sha1` and
  `getrandom`.
- `app/`: the parts that do I/O — a `Read`/`Write` stream over a transport,
  the environment lookups and the system calls on file descriptors.
- `tests/`: executable tests of the library.
