//! One-way, salted derivation and verification of password hashes.
//!
//! A stored credential is a self-describing PHC string: it embeds the
//! algorithm, its cost parameters and the salt, so a password can be checked
//! against it without any external parameter lookup. A merely wrong password
//! verifies to `false`; a stored string the hasher cannot use at all is an
//! integrity error, reported apart.
use vstd::prelude::*;

use argon2::password_hash::rand_core::OsRng;
use argon2::password_hash::PasswordHasher;
use argon2::password_hash::SaltString;
use argon2::Argon2;
use argon2::PasswordHash;
use argon2::PasswordVerifier;
use vstd::string::StrSliceExecFns;
use vstd::utf8::encode_utf8;

verus! {

/// Whether `password` matches the credential encoded in the stored PHC
/// string: recomputing the hash with the parameters and salt embedded in
/// `stored` yields the digest embedded in `stored`. A function of the two
/// arguments alone.
pub uninterp spec fn argon2_matches(password: Seq<u8>, stored: Seq<char>) -> bool;

/// Whether the stored string is structurally unusable for verification:
/// it does not parse as a PHC string, or names an algorithm or parameters
/// the hasher does not support. A function of the stored string alone.
pub uninterp spec fn phc_malformed(stored: Seq<char>) -> bool;

/// The hash could not be derived: the underlying randomness or encoding
/// failed. A server fault, not a user error.
#[derive(Clone, Copy, PartialEq, Eq, Structural, Debug)]
pub enum HashingError {
    Backend,
}

/// The stored hash string is structurally malformed: an integrity fault in
/// the store, distinct from a wrong password.
#[derive(Clone, Copy, PartialEq, Eq, Structural, Debug)]
pub enum VerificationError {
    MalformedHash,
}

enum RawVerify {
    Match,
    Mismatch,
    Malformed,
}

/// The longest password the hasher accepts, in bytes; anything longer is
/// refused by the hashing function itself.
pub open spec fn max_password_len() -> int {
    0xFFFF_FFFF
}

/// Whether a stored string carries the algorithm tag this hasher writes:
/// it begins with `$argon2id$`.
pub open spec fn has_argon2id_tag(stored: Seq<char>) -> bool {
    stored.len() >= 10 && stored.subrange(0, 10) == "$argon2id$"@
}

/// Relies on `argon2`'s `hash_password` under a fresh random salt: on
/// success the returned PHC string carries the `$argon2id$` tag, parses
/// back, and verifying the same password against it succeeds. With a
/// generated salt and the default parameters the only failure is a password
/// longer than the hasher's own maximum, so success is owed below it.
#[verifier::external_body]
fn argon2_hash(password: &[u8]) -> (r: Option<String>)
    ensures
        r matches Some(h) ==> argon2_matches(password@, h@) && !phc_malformed(h@)
            && has_argon2id_tag(h@),
        password@.len() <= max_password_len() ==> r is Some,
{
    let salt = SaltString::generate(OsRng);
    match Argon2::default().hash_password(password, &salt) {
        Ok(h) => Some(h.to_string()),
        Err(_) => None,
    }
}

/// Relies on `argon2`'s `PasswordHash::new` and `verify_password`: both are
/// functions of the stored string and the password alone; `Error::Password`
/// marks a mere mismatch, every other failure a stored string the hasher
/// cannot use. A password over the hasher's maximum is itself reported as
/// `Error::Password`, before the stored string's salt is examined, so the
/// malformed-ness reading holds only below that bound.
#[verifier::external_body]
fn argon2_check(password: &[u8], stored: &str) -> (r: RawVerify)
    ensures
        password@.len() <= max_password_len() ==> ((r is Malformed) == phc_malformed(stored@)),
        !phc_malformed(stored@) ==> ((r is Match) == argon2_matches(password@, stored@)),
        !phc_malformed(stored@) ==> !(r is Malformed),
        r is Match ==> !phc_malformed(stored@),
{
    let parsed = match PasswordHash::new(stored) {
        Ok(p) => p,
        Err(_) => {
            return RawVerify::Malformed;
        },
    };
    match Argon2::default().verify_password(password, &parsed) {
        Ok(()) => RawVerify::Match,
        Err(argon2::password_hash::Error::Password) => RawVerify::Mismatch,
        Err(_) => RawVerify::Malformed,
    }
}

/// Derives a salted hash of `password` and returns it as a self-describing
/// PHC string under the `$argon2id$` tag. Each call draws a fresh salt, so
/// two calls on the same password may return different strings; every
/// returned string verifies against the password it was derived from, and
/// every password up to the hasher's maximum length gets a hash.
pub fn hash_password(password: &str) -> (r: Result<String, HashingError>)
    ensures
        r matches Ok(h) ==> argon2_matches(encode_utf8(password@), h@) && !phc_malformed(h@)
            && has_argon2id_tag(h@),
        encode_utf8(password@).len() <= max_password_len() ==> r is Ok,
{
    match argon2_hash(password.as_bytes()) {
        Some(h) => Ok(h),
        None => Err(HashingError::Backend),
    }
}

/// What verification of `password` against `stored` returns: an integrity
/// error for a malformed stored string, otherwise whether the password
/// matches.
pub open spec fn verify_outcome(password: Seq<u8>, stored: Seq<char>) -> Result<
    bool,
    VerificationError,
> {
    if phc_malformed(stored) {
        Err(VerificationError::MalformedHash)
    } else {
        Ok(argon2_matches(password, stored))
    }
}

/// Recomputes the hash of `password` with the parameters and salt embedded
/// in `hash` and compares digests. `Ok(false)` means a wrong password;
/// `Err` means the stored string itself is unusable. The outcome is pinned
/// exactly for every password the hasher accepts; beyond that length a
/// usable stored string still answers whether the password matches, and an
/// error still means the stored string is bad.
pub fn verify_password(password: &str, hash: &str) -> (r: Result<bool, VerificationError>)
    ensures
        encode_utf8(password@).len() <= max_password_len() ==> r == verify_outcome(
            encode_utf8(password@),
            hash@,
        ),
        !phc_malformed(hash@) ==> r == Ok::<bool, VerificationError>(
            argon2_matches(encode_utf8(password@), hash@),
        ),
        r matches Ok(true) ==> !phc_malformed(hash@) && argon2_matches(
            encode_utf8(password@),
            hash@,
        ),
        r is Err ==> phc_malformed(hash@),
{
    match argon2_check(password.as_bytes(), hash) {
        RawVerify::Match => Ok(true),
        RawVerify::Mismatch => Ok(false),
        RawVerify::Malformed => Err(VerificationError::MalformedHash),
    }
}

/// Law: a hash freshly derived from a password verifies against that same
/// password. `hash_password` guarantees the two premises of every string it
/// returns.
pub proof fn lemma_hash_then_verify(password: Seq<u8>, stored: Seq<char>)
    requires
        argon2_matches(password, stored),
        !phc_malformed(stored),
    ensures
        verify_outcome(password, stored) == Ok::<bool, VerificationError>(true),
{
}

/// Law: two hashes derived from the same password both verify against it,
/// even when fresh salts made the two stored strings differ.
pub proof fn lemma_rehash_both_verify(password: Seq<u8>, h1: Seq<char>, h2: Seq<char>)
    requires
        argon2_matches(password, h1),
        !phc_malformed(h1),
        argon2_matches(password, h2),
        !phc_malformed(h2),
    ensures
        verify_outcome(password, h1) == Ok::<bool, VerificationError>(true),
        verify_outcome(password, h2) == Ok::<bool, VerificationError>(true),
{
}

/// Law: a structurally malformed stored hash is reported as an integrity
/// error, never as a mere `false`.
pub proof fn lemma_malformed_is_error(password: Seq<u8>, stored: Seq<char>)
    requires
        phc_malformed(stored),
    ensures
        verify_outcome(password, stored) == Err::<bool, VerificationError>(
            VerificationError::MalformedHash,
        ),
{
}

} // verus!
