//! The records the service works with, and the credential hasher: a
//! one-way, salted transformation of a plaintext secret into a storable,
//! self-describing record.  Persistence of these records is the
//! embedding's concern.

use vstd::prelude::*;
use argon2::{PasswordHasher, PasswordVerifier};

verus! {

/// A stored account: only the hash of the password is ever persisted.
pub struct User {
    pub id: u64,
    pub username: String,
    pub password: String,
    pub role: String,
}

/// What a signup or login request carries.
pub struct LoginCredentials {
    pub username: String,
    pub password: String,
}

/// Whether the hashing primitive's own verification accepts `secret`
/// against the record `record` (whose salt and parameters it carries).  A
/// pure function of the two; never stated further.
pub uninterp spec fn password_matches(secret: Seq<u8>, record: Seq<char>) -> bool;

/// Relies on argon2's `hash_password`: a fresh random salt per call, the
/// memory-hard digest, rendered as a self-describing record.  The salt is
/// random, so all that is assumed of the record is that argon2's own
/// verification accepts the same password against it (`password_matches`);
/// a failure of the entropy source is fatal, as the service cannot safely
/// continue without randomness.  argon2 rejects a password over its
/// documented maximum of `0xFFFFFFFF` bytes, so such inputs are excluded.
#[verifier::external_body]
pub fn hash(password: &[u8]) -> (r: String)
    requires
        password@.len() <= 0xFFFFFFFF,
    ensures
        password_matches(password@, r@),
{
    argon2::Argon2::default()
        .hash_password(password)
        .expect("entropy source failure is fatal")
        .to_string()
}

/// Relies on argon2's `verify_password` against a stored record: it
/// re-hashes the candidate under the record's own salt and parameters and
/// compares in constant time — deterministic in its two arguments, which
/// is what `password_matches` names.  A record that does not parse is
/// rejected.
#[verifier::external_body]
pub fn verify_password(password: &[u8], record: &str) -> (r: bool)
    ensures
        r == password_matches(password@, record@),
{
    argon2::Argon2::default().verify_password(password, record).is_ok()
}

} // verus!
