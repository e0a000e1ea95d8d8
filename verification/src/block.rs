//! Wire labels for the garbled circuit: 16-byte blocks, their XOR, their
//! permute bit (the least significant bit of byte 0), and the half-gate hash
//! `H(label, gid, tweak)` — SHA-256 over the label and the two 64-bit
//! domain separators, truncated to one block.
use vstd::prelude::*;
use crate::byteops::{be64, push_be64};
use crate::hashing::{sha256, sha256_of};

verus! {

/// A wire label.
pub type Block = [u8; 16];

/// Pointwise XOR of two blocks, as a length-16 sequence.
pub open spec fn bxor16(a: Seq<u8>, b: Seq<u8>) -> Seq<u8> {
    Seq::new(16, |i: int| a[i] ^ b[i])
}

/// The permute bit of a label.
pub open spec fn lsb(s: Seq<u8>) -> bool {
    s[0] & 1 == 1
}

/// The half-gate hash: SHA-256 of `label ‖ BE64(gid) ‖ BE64(tweak)`,
/// truncated to 16 bytes.
pub open spec fn hash_label_of(label: Seq<u8>, gid: u64, tweak: u64) -> Seq<u8> {
    sha256_of(label + be64(gid) + be64(tweak)).take(16)
}

/// The permute bit of a block.
pub fn get_lsb(block: &Block) -> (b: bool)
    ensures
        b == lsb(block@),
{
    block[0] & 1 == 1
}

/// XOR two blocks.
pub fn xor_block(a: &Block, b: &Block) -> (r: Block)
    ensures
        r@ == bxor16(a@, b@),
{
    let mut res = [0u8; 16];
    let mut i: usize = 0;
    while i < 16
        invariant
            i <= 16,
            res@.len() == 16,
            forall|j: int| 0 <= j < i ==> res@[j] == (a@[j] ^ b@[j]),
        decreases 16 - i,
    {
        res[i] = a[i] ^ b[i];
        i = i + 1;
    }
    assert(res@ =~= bxor16(a@, b@));
    res
}

/// Compute the half-gate hash of a label.
pub fn hash_label(label: &Block, gid: u64, tweak: u64) -> (r: Block)
    ensures
        r@ == hash_label_of(label@, gid, tweak),
{
    let mut data: Vec<u8> = Vec::new();
    let mut i: usize = 0;
    while i < 16
        invariant
            i <= 16,
            data@ == label@.subrange(0, i as int),
        decreases 16 - i,
    {
        data.push(label[i]);
        assert(data@ =~= label@.subrange(0, i as int + 1));
        i = i + 1;
    }
    assert(data@ =~= label@);
    push_be64(&mut data, gid);
    push_be64(&mut data, tweak);
    assert(data@ =~= label@ + be64(gid) + be64(tweak));
    let h = sha256(&data);
    let mut out = [0u8; 16];
    let mut i: usize = 0;
    while i < 16
        invariant
            i <= 16,
            h@.len() == 32,
            out@.len() == 16,
            forall|j: int| 0 <= j < i ==> out@[j] == h@[j],
        decreases 16 - i,
    {
        out[i] = h[i];
        i = i + 1;
    }
    assert(out@ =~= hash_label_of(label@, gid, tweak));
    out
}

/// Compare two blocks byte by byte.
pub fn eq_block(a: &Block, b: &Block) -> (r: bool)
    ensures
        r == (a@ == b@),
{
    let mut i: usize = 0;
    while i < 16
        invariant
            i <= 16,
            forall|j: int| 0 <= j < i ==> a@[j] == b@[j],
        decreases 16 - i,
    {
        if a[i] != b[i] {
            return false;
        }
        i = i + 1;
    }
    assert(a@ =~= b@);
    true
}

} // verus!
