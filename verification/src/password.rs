//! Password hashing and verification with a memory-hard KDF.

use vstd::prelude::*;
use argon2::{Argon2, PasswordHash, PasswordHasher, PasswordVerifier};

verus! {

#[derive(Debug)]
pub enum PasswordError {
    HashError(String),
    VerifyError,
}

/// What verifying `password` against the stored `hash` yields: `None` when
/// the hash is not a well-formed PHC string, otherwise whether the password
/// matches.  Verification reruns the KDF with the salt and parameters read
/// from the hash string, so the outcome depends on the two arguments alone.
pub uninterp spec fn password_verifies(password: Seq<char>, hash: Seq<char>) -> Option<bool>;

/// Relies on `argon2::Argon2::hash_password` (Argon2id with the default
/// parameters and a fresh random salt) and the PHC string encoding: a hash
/// produced this way is well-formed and verifies against the same password.
#[verifier::external_body]
pub fn hash_password(password: &str) -> (r: Result<String, PasswordError>)
    ensures
        r matches Ok(h) ==> password_verifies(password@, h@) == Some(true),
{
    Argon2::default()
        .hash_password(password.as_bytes())
        .map(|h| h.to_string())
        .map_err(|e| PasswordError::HashError(e.to_string()))
}

/// Relies on `argon2::Argon2::verify_password` and
/// `argon2::PasswordHash::new`: a malformed hash string fails to parse, and
/// a parsed one verifies deterministically from the password and the salt
/// and parameters stored in the hash.
#[verifier::external_body]
pub fn verify_password(password: &str, hash: &str) -> (r: Result<bool, PasswordError>)
    ensures
        r matches Ok(b) ==> password_verifies(password@, hash@) == Some(b),
        r is Err ==> password_verifies(password@, hash@) is None,
{
    let parsed = match PasswordHash::new(hash) {
        Ok(p) => p,
        Err(e) => {
            return Err(PasswordError::HashError(e.to_string()));
        },
    };
    Ok(Argon2::default().verify_password(password.as_bytes(), &parsed).is_ok())
}

/// Law: a password always verifies against its own fresh hash.  Whenever
/// hashing succeeds, verifying the same password against the produced hash
/// succeeds and answers `true`.
pub fn hash_then_verify(password: &str) -> (r: Result<bool, PasswordError>)
    ensures
        r matches Ok(b) ==> b,
{
    let hash = match hash_password(password) {
        Ok(h) => h,
        Err(e) => {
            return Err(e);
        },
    };
    verify_password(password, hash.as_str())
}

} // verus!
