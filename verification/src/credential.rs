//! Password credential: hashing of a plaintext secret into a
//! self-describing stored string, and verification of a plaintext
//! against such a string.
//!
//! The key derivation itself is done by the `argon2` crate; the stored
//! string is a PHC string embedding algorithm, parameters, salt and
//! digest. Whether a plaintext re-derives the digest of a stored string
//! is a function of the two strings alone, named `digest_matches` below;
//! hashing promises that its result accepts the plaintext it was made
//! from, and verification returns `Match` exactly on acceptance.
use vstd::prelude::*;

use argon2::PasswordHasher;
use argon2::PasswordVerifier;

verus! {

/// Outcome of verifying a plaintext against a stored hash string.
#[derive(Debug, Clone, Copy, PartialEq, Eq, Structural)]
pub enum VerifyOutcome {
    /// The stored string is well formed and its digest re-derives from
    /// the plaintext.
    Match,
    /// The stored string is well formed but the digest does not match.
    NoMatch,
    /// The stored string cannot be parsed or used.
    Malformed,
}

/// Hashing failed inside the key-derivation function.
#[derive(Debug, Clone, Copy, PartialEq, Eq, Structural)]
pub struct HashError;

/// Whether the digest embedded in stored hash string `h` re-derives from
/// plaintext `p`: the (deterministic) accepting outcome of argon2's
/// `verify_password` on the two strings.
pub uninterp spec fn digest_matches(p: Seq<char>, h: Seq<char>) -> bool;

/// Relies on `Argon2::hash_password` (argon2 crate): on success it returns
/// a PHC string carrying a fresh random salt and the digest derived from
/// the plaintext with the embedded parameters, so `verify_password`
/// accepts the same plaintext against it.
#[verifier::external_body]
fn argon2_hash(p: &str) -> (r: Result<String, HashError>)
    ensures
        r matches Ok(h) ==> digest_matches(p@, h@),
{
    match argon2::Argon2::default().hash_password(p.as_bytes()) {
        Ok(h) => Ok(h.to_string()),
        Err(_) => Err(HashError),
    }
}

/// Relies on `Argon2::verify_password` (argon2 crate): it parses the
/// stored string, re-derives the digest from the plaintext with the
/// embedded salt and parameters, and compares in constant time;
/// `Error::PasswordInvalid` reports a digest mismatch, any other error a stored
/// string that cannot be parsed or used.
#[verifier::external_body]
fn argon2_verify(p: &str, h: &str) -> (r: VerifyOutcome)
    ensures
        (r == VerifyOutcome::Match) <==> digest_matches(p@, h@),
{
    match argon2::Argon2::default().verify_password(p.as_bytes(), h) {
        Ok(()) => VerifyOutcome::Match,
        Err(argon2::password_hash::Error::PasswordInvalid) => VerifyOutcome::NoMatch,
        Err(_) => VerifyOutcome::Malformed,
    }
}

/// Derives a stored hash string for `password` under a fresh random salt.
/// Every string this returns accepts `password` under `verify_password`.
pub fn hash_password(password: &str) -> (r: Result<String, HashError>)
    ensures
        r matches Ok(h) ==> digest_matches(password@, h@),
{
    argon2_hash(password)
}

/// Verifies `password` against a stored hash string: `Match` exactly when
/// the digest embedded in `stored` re-derives from `password`.
pub fn verify_password(password: &str, stored: &str) -> (r: VerifyOutcome)
    ensures
        (r == VerifyOutcome::Match) <==> digest_matches(password@, stored@),
{
    argon2_verify(password, stored)
}

} // verus!
