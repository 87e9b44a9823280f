//! The credential primitive: a salted, slow, one-way password hash.
//!
//! The service stores only digests. Whether a password matches a digest is a
//! deterministic question of the two values alone (the digest carries its own
//! salt and cost), so that relation gets the name `digest_matches`, and the
//! two operations below are stated over it.

use vstd::prelude::*;

verus! {

/// The password matches the digest: checking the pair succeeds and answers
/// "yes". The relation is a function of the two values alone.
pub uninterp spec fn digest_matches(password: Seq<char>, digest: Seq<char>) -> bool;

/// Relies on bcrypt::hash at bcrypt::DEFAULT_COST: it draws a fresh random
/// salt, so the digest itself cannot be pinned down, but bcrypt::verify reads
/// salt and cost back out of the digest and recomputes, so a digest freshly
/// made from a password always matches that password. Returns None when the
/// primitive fails (it cannot fail on the cost, which is the crate's own
/// default; only on drawing randomness).
#[verifier::external_body]
pub(crate) fn hash_password(password: &str) -> (r: Option<String>)
    ensures
        r matches Some(d) ==> digest_matches(password@, d@),
{
    bcrypt::hash(password, bcrypt::DEFAULT_COST).ok()
}

/// Relies on bcrypt::verify: it parses the digest, recomputes the hash of the
/// password under the digest's own salt and cost, and compares; the outcome
/// is a function of password and digest alone. Returns None when the digest
/// cannot be parsed as a bcrypt digest, in which case no check of this
/// password against this digest ever answers "yes".
#[verifier::external_body]
pub(crate) fn check_password(password: &str, digest: &String) -> (r: Option<bool>)
    ensures
        r matches Some(b) ==> b == digest_matches(password@, digest@),
        r is None ==> !digest_matches(password@, digest@),
{
    bcrypt::verify(password, digest.as_str()).ok()
}

} // verus!
