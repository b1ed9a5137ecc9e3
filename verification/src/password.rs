//! The opaque password-hashing capability: hash on signup, verify on login.
//! Argon2id does the work behind trusted declarations.

use vstd::prelude::*;

verus! {

/// Whether `hash` is a well-formed PHC hash string; names the success of
/// `password_hash`'s `PasswordHash::new`.
pub uninterp spec fn is_phc_hash(hash: Seq<char>) -> bool;

/// Whether Argon2 verification accepts `password` against `hash`; names the
/// outcome of argon2's `verify_password`, which recomputes the digest from
/// the salt and parameters carried inside `hash` — a deterministic function
/// of the two strings.
pub uninterp spec fn password_matches(hash: Seq<char>, password: Seq<char>) -> bool;

/// Password-hashing failure.
#[derive(Clone, Copy, PartialEq, Eq, Structural, Debug)]
pub enum PasswordError {
    /// Hashing failed: the random salt source or the hasher itself.
    HashingFailed,
    /// A stored hash is not a well-formed PHC string.
    MalformedHash,
}

/// Relies on argon2's `PasswordHasher::hash_password` (Argon2id, default
/// parameters, fresh random salt): on success the result is a PHC string
/// that verifies against the hashed password. The salt is random, so the
/// string itself is promised nothing more.
#[verifier::external_body]
fn hash_password_raw(password: &str) -> (r: Option<String>)
    ensures
        r is Some ==> is_phc_hash(r->Some_0@) && password_matches(r->Some_0@, password@),
{
    let hasher = argon2::Argon2::default();
    let hashed: Result<argon2::PasswordHash, _> = argon2::PasswordHasher::hash_password(
        &hasher,
        password.as_bytes(),
    );
    match hashed {
        Ok(h) => Some(h.to_string()),
        Err(_) => None,
    }
}

/// Relies on `password_hash`'s `PasswordHash::new`, which succeeds exactly on
/// well-formed PHC strings, and argon2's `verify_password`, whose acceptance
/// is a deterministic function of hash and password.
#[verifier::external_body]
fn verify_password_raw(hash: &str, password: &str) -> (r: Option<bool>)
    ensures
        r is Some <==> is_phc_hash(hash@),
        r is Some ==> r->Some_0 == password_matches(hash@, password@),
{
    match argon2::PasswordHash::new(hash) {
        Err(_) => None,
        Ok(parsed) => {
            let hasher = argon2::Argon2::default();
            let outcome = argon2::PasswordVerifier::verify_password(
                &hasher,
                password.as_bytes(),
                &parsed,
            );
            Some(outcome.is_ok())
        },
    }
}

/// Hash a password into a PHC string with a fresh random salt. The result
/// verifies against the password it was made from.
pub fn hash_password(password: &str) -> (r: Result<String, PasswordError>)
    ensures
        r is Ok ==> is_phc_hash(r->Ok_0@) && password_matches(r->Ok_0@, password@),
        r is Err ==> r->Err_0 == PasswordError::HashingFailed,
{
    match hash_password_raw(password) {
        Some(h) => Ok(h),
        None => Err(PasswordError::HashingFailed),
    }
}

/// Check a password against a stored hash. Fails exactly when the stored
/// hash itself is not a well-formed PHC string.
pub fn verify_password(hash: &str, password: &str) -> (r: Result<bool, PasswordError>)
    ensures
        r is Ok <==> is_phc_hash(hash@),
        r is Ok ==> r->Ok_0 == password_matches(hash@, password@),
        r is Err ==> r->Err_0 == PasswordError::MalformedHash,
{
    match verify_password_raw(hash, password) {
        Some(b) => Ok(b),
        None => Err(PasswordError::MalformedHash),
    }
}

} // verus!
