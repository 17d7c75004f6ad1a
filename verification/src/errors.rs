use vstd::prelude::*;

verus! {

/// The reason an authentication attempt was rejected.
#[derive(Clone, Copy, Debug, PartialEq, Eq, Structural)]
pub enum AuthFailure {
    /// The presented proof of possession did not match the registered key.
    InvalidSignature,
    /// The subscription id is not registered with the service.
    InvalidSubscription,
    /// The one-time join code is unknown or already used.
    InvalidJoinCode,
}

/// The error taxonomy of the client: local configuration and parsing
/// failures, authentication failures, and failures surfaced by the remote
/// service.
#[derive(Clone, Copy, Debug, PartialEq, Eq, Structural)]
pub enum SxtError {
    /// A locally supplied value (subscription id, keypair text, table name)
    /// is malformed.
    ConfigError,
    /// A credential store that was asked for does not exist.
    NotFound,
    /// A credential store could not be written.
    IoError,
    /// A credential store exists but its text is malformed.
    ParseError,
    /// Authentication was rejected, for the contained reason.
    AuthError(AuthFailure),
    /// The transport failed before the service answered.
    NetworkError,
    /// The bearer token presented with a query is no longer valid.
    AuthExpired,
    /// The service rejected the query text: unparseable, or naming a
    /// table it does not hold.
    QuerySyntaxError,
    /// A returned row does not match the requested record shape.
    DecodeError,
    /// A table with the same qualified name already exists.
    AlreadyExists,
    /// A delete was asked for without any restricting predicate.
    MissingPredicate,
}

impl SxtError {
    /// A short human-readable description of the error.
    pub fn message(&self) -> (r: &'static str) {
        match self {
            SxtError::ConfigError => "malformed local configuration value",
            SxtError::NotFound => "credential store not found",
            SxtError::IoError => "credential store is unwritable",
            SxtError::ParseError => "credential store is malformed",
            SxtError::AuthError(AuthFailure::InvalidSignature) => "invalid signature",
            SxtError::AuthError(AuthFailure::InvalidSubscription) => "unknown subscription",
            SxtError::AuthError(AuthFailure::InvalidJoinCode) => "invalid join code",
            SxtError::NetworkError => "transport failure",
            SxtError::AuthExpired => "bearer token is no longer valid",
            SxtError::QuerySyntaxError => "query text was rejected",
            SxtError::DecodeError => "row does not match the requested shape",
            SxtError::AlreadyExists => "table already exists",
            SxtError::MissingPredicate => "delete requires a predicate",
        }
    }
}

} // verus!
