//! A verified client for an authenticated tabular-query service.
//!
//! The crate models the four client-side components of such a service:
//! an identity manager (keypairs and subscription ids, with a persistable
//! credential format), a session/auth context (bearer tokens obtained by
//! authenticating an identity), a query executor (a small SQL-like grammar
//! with typed row decoding), and a table manager (create/insert/select/delete
//! composed as queries). The remote service itself is modelled by an
//! in-memory state machine, so every behaviour the client relies on is
//! stated and proved rather than assumed.

pub mod credentials;
pub mod errors;
pub mod identity;
pub mod query;
pub mod service;
pub mod session;
pub mod strutil;
pub mod table;
