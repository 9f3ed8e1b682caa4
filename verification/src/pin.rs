//! Reveal-PIN hashing with Argon2. Only the hash is ever stored.
use vstd::prelude::*;
use crate::error::{AppError, ErrorKind, err_kind};
use argon2::password_hash::rand_core::OsRng;
use argon2::password_hash::{PasswordHash, PasswordHasher, PasswordVerifier, SaltString};

verus! {

/// Whether `argon2::password_hash::PasswordHash::new` accepts `hash` as a
/// PHC-format hash string.
pub uninterp spec fn pin_hash_parses(hash: Seq<char>) -> bool;

/// Whether `Argon2::verify_password` accepts `pin` (its UTF-8 bytes)
/// against the parsed `hash`.
pub uninterp spec fn pin_hash_accepts(pin: Seq<char>, hash: Seq<char>) -> bool;

/// `Argon2::default().hash_password(pin, salt)` with a fresh random salt
/// (`SaltString::generate(&mut OsRng)`), rendered as a PHC string.
/// Claimed: a produced hash parses, and verifying the same PIN against it
/// succeeds (the crate's documented round trip). The hash itself is random
/// (salted) and is not named. Failures are reported as `Crypto`.
#[verifier::external_body]
pub(crate) fn hash_pin(pin: &str) -> (r: Result<String, AppError>)
    ensures
        r matches Ok(h) ==> pin_hash_parses(h@) && pin_hash_accepts(pin@, h@),
        r is Err ==> err_kind(r) == Some(ErrorKind::Crypto),
{
    let salt = SaltString::generate(&mut OsRng);
    argon2::Argon2::default()
        .hash_password(pin.as_bytes(), &salt)
        .map(|h| h.to_string())
        .map_err(|e| AppError::Crypto(e.to_string()))
}

/// `PasswordHash::new(hash)` then `Argon2::default().verify_password(pin, &parsed)`.
/// Claimed: it fails (`Crypto`) exactly when the hash does not parse, and
/// otherwise returns whether the PIN is accepted.
#[verifier::external_body]
pub(crate) fn verify_pin(pin: &str, hash: &str) -> (r: Result<bool, AppError>)
    ensures
        r is Ok <==> pin_hash_parses(hash@),
        r matches Ok(b) ==> b == pin_hash_accepts(pin@, hash@),
        r is Err ==> err_kind(r) == Some(ErrorKind::Crypto),
{
    let parsed = PasswordHash::new(hash).map_err(|e| AppError::Crypto(e.to_string()))?;
    Ok(argon2::Argon2::default().verify_password(pin.as_bytes(), &parsed).is_ok())
}

} // verus!
