//! Password hashing for administrator accounts, done by Argon2.

use argon2::{PasswordHasher, PasswordVerifier};
use vstd::prelude::*;

verus! {

/// What Argon2 with its default parameters makes of a password and a salt:
/// the hash as a PHC string, or nothing where password or salt are not
/// accepted.
pub uninterp spec fn phc_hash(password: Seq<char>, salt: Seq<char>) -> Option<Seq<char>>;

/// Whether `hash` parses as a PHC string and Argon2, run with the
/// parameters and salt found in it, gives the output found in it for
/// `password`.
pub uninterp spec fn phc_accepts(password: Seq<char>, hash: Seq<char>) -> bool;

/// The value of an optional text.
pub open spec fn hash_view(hash: Option<String>) -> Option<Seq<char>> {
    match hash {
        Some(h) => Some(h@),
        None => None,
    }
}

/// Calls `password_hash::SaltString::generate` with `rand_core::OsRng` and
/// hands the salt out as text.
///
/// Trusted: the salt is random, so nothing is said of it. The call panics
/// if the operating system cannot supply random bytes.
#[verifier::external_body]
pub(crate) fn random_salt() -> (salt: String) {
    argon2::password_hash::SaltString::generate(&mut rand_core::OsRng).as_str().to_string()
}

/// Calls `Argon2::default().hash_password` on the bytes of `password` with
/// the salt parsed by `SaltString::from_b64`, and writes the hash as a PHC
/// string.
///
/// Trusted: the result depends on password and salt alone and is named
/// `phc_hash`; a salt or password that the crate refuses gives nothing. As
/// the crate's documentation shows, a hash made this way is accepted for
/// the same password.
#[verifier::external_body]
pub(crate) fn hash_with_salt(password: &str, salt: &str) -> (hash: Option<String>)
    ensures
        hash_view(hash) == phc_hash(password@, salt@),
        hash matches Some(h) ==> phc_accepts(password@, h@),
{
    let salt = argon2::password_hash::SaltString::from_b64(salt).ok()?;
    let hashed = argon2::Argon2::default().hash_password(password.as_bytes(), &salt);
    hashed.ok().map(|h| h.to_string())
}

/// Calls `PasswordHash::new` on `hash` and `Argon2::default().verify_password`
/// on the bytes of `password`.
///
/// Trusted: the answer depends on password and hash alone and is named
/// `phc_accepts`; a text that does not parse as a PHC string is not
/// accepted.
#[verifier::external_body]
pub(crate) fn accepts(password: &str, hash: &str) -> (accepted: bool)
    ensures
        accepted == phc_accepts(password@, hash@),
{
    match argon2::PasswordHash::new(hash) {
        Ok(parsed) => argon2::Argon2::default().verify_password(password.as_bytes(), &parsed).is_ok(),
        Err(_) => false,
    }
}

} // verus!
