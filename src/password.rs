//! Password hashing and verification with Argon2.

use vstd::prelude::*;

use argon2::password_hash::rand_core::OsRng;
use argon2::password_hash::SaltString;
use argon2::{Argon2, PasswordHash, PasswordHasher, PasswordVerifier};

use crate::error::ServiceError;

verus! {

#[verifier::external_type_specification]
#[verifier::external_body]
pub struct ExPasswordHashError(argon2::password_hash::Error);

/// What Argon2 verification decides for a password and a stored PHC digest:
/// `Some(true)` on a match, `Some(false)` on a mismatch, `None` when the
/// digest cannot be used.
pub uninterp spec fn argon2_verdict(password: Seq<char>, digest: Seq<char>) -> Option<bool>;

/// Relies on argon2's `PasswordHasher::hash_password` (with `Argon2::default()`
/// and a salt drawn by `SaltString::generate` from `OsRng`), rendered as a PHC
/// string: the salt and parameters travel inside the digest, so the digest
/// verifies against the password that produced it.
#[verifier::external_body]
fn argon2_hash(password: &str) -> (r: Result<String, argon2::password_hash::Error>)
    ensures
        r matches Ok(d) ==> argon2_verdict(password@, d@) == Some(true),
{
    let salt = SaltString::generate(&mut OsRng);
    Argon2::default().hash_password(password.as_bytes(), &salt).map(|h| h.to_string())
}

/// Relies on argon2's `PasswordHash::new` and `PasswordVerifier::verify_password`
/// (with `Argon2::default()`): the crate's `Error::Password` is a mismatch,
/// `Ok(())` a match, and every other error a digest that cannot be used.
#[verifier::external_body]
fn argon2_check(password: &str, digest: &str) -> (r: Result<bool, argon2::password_hash::Error>)
    ensures
        match r {
            Ok(b) => argon2_verdict(password@, digest@) == Some(b),
            Err(_) => argon2_verdict(password@, digest@) == None::<bool>,
        },
{
    let parsed = PasswordHash::new(digest)?;
    match Argon2::default().verify_password(password.as_bytes(), &parsed) {
        Ok(()) => Ok(true),
        Err(argon2::password_hash::Error::Password) => Ok(false),
        Err(e) => Err(e),
    }
}

/// The result of checking `password` against the stored `digest`: a mismatch
/// is a negative answer, a malformed digest is an error.
pub open spec fn verify_outcome(password: Seq<char>, digest: Seq<char>) -> Result<bool, ServiceError> {
    match argon2_verdict(password, digest) {
        Some(b) => Ok(b),
        None => Err(ServiceError::CorruptDigest),
    }
}

/// Hashes a password with a fresh random salt into a self-describing digest.
/// Whatever digest comes back, verifying the same password against it
/// answers `true`.
pub fn hash(password: &str) -> (r: Result<String, ServiceError>)
    ensures
        r matches Ok(d) ==> verify_outcome(password@, d@) == Ok::<bool, ServiceError>(true),
        r matches Err(e) ==> e == ServiceError::Hashing,
{
    match argon2_hash(password) {
        Ok(d) => Ok(d),
        Err(_) => Err(ServiceError::Hashing),
    }
}

/// Checks a password against a stored digest.
pub fn verify(password: &str, digest: &str) -> (r: Result<bool, ServiceError>)
    ensures
        r == verify_outcome(password@, digest@),
{
    match argon2_check(password, digest) {
        Ok(b) => Ok(b),
        Err(_) => Err(ServiceError::CorruptDigest),
    }
}

} // verus!
