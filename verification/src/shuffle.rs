//! Deterministic pseudo-random ordering of allocation candidates.
//!
//! Candidates are ordered by an MD5 digest of the candidate's id concatenated
//! with the caller's seed, so that the same seed and the same candidate set
//! always give the same selection, while no one pool is favoured. Ties on the
//! digest are broken by the id itself, which makes the order total.

use vstd::prelude::*;

verus! {

/// The shuffle key of a candidate id under a seed: the MD5 digest of the id
/// and the seed, folded into an integer. The key is a function of `id` and
/// `seed` alone.
pub uninterp spec fn shuffle_key_of(id: u128, seed: u128) -> u128;

/// Relies on md5::compute: the digest is a pure function of the input bytes,
/// and the input here is assembled from `id` and `seed` alone.
#[verifier::external_body]
pub(crate) fn shuffle_key(id: u128, seed: u128) -> (r: u128)
    ensures
        r == shuffle_key_of(id, seed),
{
    let mut buf = [0u8; 32];
    buf[..16].copy_from_slice(&id.to_le_bytes());
    buf[16..].copy_from_slice(&seed.to_le_bytes());
    u128::from_le_bytes(md5::compute(buf).0)
}

/// Strict order of two candidate ids under a seed: by shuffle key, ties
/// broken by the id. A total order whenever the ids differ.
pub open spec fn shuffle_lt(a: u128, b: u128, seed: u128) -> bool {
    ||| shuffle_key_of(a, seed) < shuffle_key_of(b, seed)
    ||| (shuffle_key_of(a, seed) == shuffle_key_of(b, seed) && a < b)
}

/// Decides [`shuffle_lt`].
pub(crate) fn shuffle_before(a: u128, b: u128, seed: u128) -> (r: bool)
    ensures
        r == shuffle_lt(a, b, seed),
{
    let ka = shuffle_key(a, seed);
    let kb = shuffle_key(b, seed);
    ka < kb || (ka == kb && a < b)
}

} // verus!
