//! Sources of randomness.  Every function here draws from the process-wide
//! `rand` generator; nothing can be promised about the values beyond their
//! shape, so the contracts state ranges and lengths only.
use vstd::prelude::*;
use rand::Rng;
use rand::RngCore;
use rand::seq::SliceRandom;

verus! {

/// Relies on rand's `random_range` over `1..=u64::MAX`: the result lies in
/// the requested range, so it is never zero.
#[verifier::external_body]
pub(crate) fn random_u64_nonzero() -> (r: u64)
    ensures
        r >= 1,
{
    rand::rng().random_range(1..=u64::MAX)
}

/// Relies on rand's `random_range` over `0..n`: the result lies in the
/// requested range.  `random_range` panics on an empty range, so `n` must be
/// positive.
#[verifier::external_body]
pub(crate) fn random_below(n: u64) -> (r: u64)
    requires
        n >= 1,
    ensures
        r < n,
{
    rand::rng().random_range(0..n)
}

/// Relies on rand's `fill_bytes`: fills the block with random bytes.
#[verifier::external_body]
pub fn rand_block() -> [u8; 16] {
    let mut block = [0u8; 16];
    rand::rng().fill_bytes(&mut block);
    block
}

/// Relies on rand's `fill_bytes`: 32 random bytes for the OT seed commitment.
#[verifier::external_body]
pub fn generate_random_seed() -> (r: Vec<u8>)
    ensures
        r@.len() == 32,
{
    let mut seed = vec![0u8; 32];
    rand::rng().fill_bytes(&mut seed);
    seed
}

/// Relies on rand's `shuffle`: the slice is permuted in place, so the new
/// contents are the old contents in some order.
#[verifier::external_body]
pub(crate) fn shuffle<T>(v: &mut Vec<T>)
    ensures
        final(v)@.len() == old(v)@.len(),
        final(v)@.to_multiset() == old(v)@.to_multiset(),
{
    v.shuffle(&mut rand::rng());
}

} // verus!
