//! The server side of one connection: the session state assembled during
//! startup, the two capability interfaces the state machine calls out to,
//! and the connection manager that drives the phase sequence.

pub mod auth;
pub mod manager;
pub mod query_exec;

pub use auth::{Auth, AuthMethod, AuthResult, NoopAuth};
pub use manager::{Manager, ManagerModel, Phase, Replication, State, StateModel};
pub use query_exec::{NoopQueryExec, QueryExec, QueryResult};
