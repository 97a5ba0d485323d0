//! Failure kinds of the library and the HTTP status each is reported with.

use vstd::prelude::*;

verus! {

/// Failures of the authentication flow.
#[derive(Debug, Clone, Copy, PartialEq, Eq, Structural)]
pub enum AuthError {
    /// Unknown user or wrong password; the two are not told apart.
    WrongCredentials,
    /// The username or the password was empty.
    MissingCredentials,
    /// A token could not be signed (server misconfiguration).
    TokenCreation,
    /// A bearer token was malformed, badly signed or expired.
    InvalidToken,
}

/// Domain failures of repository and service operations.
#[derive(Debug, Clone, Copy, PartialEq, Eq, Structural)]
pub enum ServiceError {
    /// An input violates a declared constraint (length, charset, range).
    Validation,
    /// The referenced entity does not exist.
    NotFound,
    /// A uniqueness constraint would be violated.
    Conflict,
    /// An id-scoped mutation touched more than one row.
    InvariantViolation,
    /// A stored password digest is malformed.
    CorruptDigest,
    /// The password hasher failed to produce a digest.
    Hashing,
    /// The store cannot take the write (its id space is exhausted).
    Storage,
    /// The credential check failed.
    Auth(AuthError),
}

/// The HTTP status that a failure is reported with; client errors are 4xx,
/// failures of the server or its data are 5xx.
pub open spec fn status_of(e: ServiceError) -> u16 {
    match e {
        ServiceError::Validation => 400,
        ServiceError::NotFound => 404,
        ServiceError::Conflict => 409,
        ServiceError::InvariantViolation => 500,
        ServiceError::CorruptDigest => 500,
        ServiceError::Hashing => 500,
        ServiceError::Storage => 503,
        ServiceError::Auth(AuthError::WrongCredentials) => 401,
        ServiceError::Auth(AuthError::MissingCredentials) => 400,
        ServiceError::Auth(AuthError::TokenCreation) => 500,
        ServiceError::Auth(AuthError::InvalidToken) => 400,
    }
}

impl ServiceError {
    /// The HTTP status that this failure is reported with.
    pub fn status(&self) -> (r: u16)
        ensures
            r == status_of(*self),
    {
        match self {
            ServiceError::Validation => 400,
            ServiceError::NotFound => 404,
            ServiceError::Conflict => 409,
            ServiceError::InvariantViolation => 500,
            ServiceError::CorruptDigest => 500,
            ServiceError::Hashing => 500,
            ServiceError::Storage => 503,
            ServiceError::Auth(AuthError::WrongCredentials) => 401,
            ServiceError::Auth(AuthError::MissingCredentials) => 400,
            ServiceError::Auth(AuthError::TokenCreation) => 500,
            ServiceError::Auth(AuthError::InvalidToken) => 400,
        }
    }
}

} // verus!
