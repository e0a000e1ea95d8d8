//! The one cryptographic hash the whole crate builds on.  SHA-256 itself is
//! computed by the `sha2` crate; its output on a given input is a fixed value
//! that this crate only names, never restates.
use vstd::prelude::*;
use sha2::{Digest, Sha256};

verus! {

/// The SHA-256 digest of a byte string, named but not defined: the
/// commitment digests, the half-gate hash and the OT key derivation are all
/// expressed through this one name.
pub uninterp spec fn sha256_of(data: Seq<u8>) -> Seq<u8>;

/// Relies on sha2's `Sha256::digest`: the 32-byte SHA-256 digest of `data`,
/// a function of `data` alone.
#[verifier::external_body]
pub fn sha256(data: &[u8]) -> (r: Vec<u8>)
    ensures
        r@ == sha256_of(data@),
        r@.len() == 32,
{
    Sha256::digest(data).to_vec()
}

} // verus!
