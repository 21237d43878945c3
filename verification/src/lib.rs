//! A server-side implementation of the PostgreSQL wire protocol: binary
//! framing, the catalog of startup / authentication / query messages, and the
//! connection state machine that drives one session from handshake to
//! termination.  The codec and the state machine are pure functions over byte
//! buffers; the transport that feeds them lives outside this crate.

pub mod backend;
pub mod proto;
pub mod secret;
pub mod wire;
