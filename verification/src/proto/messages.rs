//! The message catalog: every wire message, each owning its decode and
//! encode logic, expressed purely in terms of the framing primitives.

pub mod backend;
pub mod frontend;

pub use backend::{
    AuthenticationCleartextPassword, AuthenticationOk, CommandComplete, CommandTag, ErrorResponse,
    Field, ReadyForQuery, SSLResponse, Severity, TransactionStatus,
};
pub use frontend::{
    Handshake, HandshakeModel, IncomingMessage, IncomingModel, Params, PasswordMessage, Query,
    SSLRequest, StartupMessage, Terminate, SSL_REQUEST_CODE,
};
