//! The half-gate garbled AND gate with free-XOR.  The garbler computes two
//! ciphertext blocks and the zero-output label; the evaluator recombines
//! them from one label per input wire.  A theorem at the end of this module
//! shows that evaluating with the labels for bits `a` and `b` yields the
//! label for `a AND b`, for every label pair and every choice of bits.
use vstd::prelude::*;
use crate::block::{bxor16, get_lsb, hash_label, hash_label_of, lsb, xor_block, Block};
use crate::rng::rand_block;

verus! {

/// The generator-half ciphertext `T_g = H(A0) ⊕ H(A1) ⊕ (p_b ? Δ : 0)`.
pub open spec fn garble_tg(a0: Seq<u8>, b0: Seq<u8>, delta: Seq<u8>, gid: u64) -> Seq<u8> {
    let ha0 = hash_label_of(a0, gid, 0);
    let ha1 = hash_label_of(bxor16(a0, delta), gid, 0);
    if lsb(b0) {
        bxor16(bxor16(ha0, ha1), delta)
    } else {
        bxor16(ha0, ha1)
    }
}

/// The evaluator-half ciphertext `T_e = H(B0) ⊕ H(B1) ⊕ A0`.
pub open spec fn garble_te(a0: Seq<u8>, b0: Seq<u8>, delta: Seq<u8>, gid: u64) -> Seq<u8> {
    let hb0 = hash_label_of(b0, gid, 1);
    let hb1 = hash_label_of(bxor16(b0, delta), gid, 1);
    bxor16(bxor16(hb0, hb1), a0)
}

/// The zero-output label `C0 = W_G ⊕ W_E`.
pub open spec fn garble_out0(a0: Seq<u8>, b0: Seq<u8>, delta: Seq<u8>, gid: u64) -> Seq<u8> {
    let ha0 = hash_label_of(a0, gid, 0);
    let hb0 = hash_label_of(b0, gid, 1);
    let wg0 = if lsb(a0) {
        bxor16(ha0, garble_tg(a0, b0, delta, gid))
    } else {
        ha0
    };
    let we0 = if lsb(b0) {
        bxor16(hb0, bxor16(garble_te(a0, b0, delta, gid), a0))
    } else {
        hb0
    };
    bxor16(wg0, we0)
}

/// What the evaluator computes from its two labels and the ciphertext pair:
/// `W = H(La) ⊕ (s_a ? T_g : 0) ⊕ H(Lb) ⊕ (s_b ? (T_e ⊕ La) : 0)`.
pub open spec fn eval_and_of(la: Seq<u8>, lb: Seq<u8>, tg: Seq<u8>, te: Seq<u8>, gid: u64) -> Seq<
    u8,
> {
    let ha = hash_label_of(la, gid, 0);
    let hb = hash_label_of(lb, gid, 1);
    let wga = if lsb(la) {
        bxor16(ha, tg)
    } else {
        ha
    };
    let web = if lsb(lb) {
        bxor16(hb, bxor16(te, la))
    } else {
        hb
    };
    bxor16(wga, web)
}

/// Garble an AND gate from the zero labels of its input wires; returns the
/// ciphertext pair and the zero-output label (the one-output label is the
/// free-XOR offset away).
pub fn garble_and_gate(a0: &Block, b0: &Block, delta: &Block, gid: u64) -> (r: ((Block, Block), Block))
    ensures
        r.0.0@ == garble_tg(a0@, b0@, delta@, gid),
        r.0.1@ == garble_te(a0@, b0@, delta@, gid),
        r.1@ == garble_out0(a0@, b0@, delta@, gid),
{
    let pa = get_lsb(a0);
    let pb = get_lsb(b0);

    let ha0 = hash_label(a0, gid, 0);
    let ha1 = hash_label(&xor_block(a0, delta), gid, 0);
    let hb0 = hash_label(b0, gid, 1);
    let hb1 = hash_label(&xor_block(b0, delta), gid, 1);

    let mut tg = xor_block(&ha0, &ha1);
    if pb {
        tg = xor_block(&tg, delta);
    }

    let mut wg0 = ha0;
    if pa {
        wg0 = xor_block(&wg0, &tg);
    }

    let te = xor_block(&xor_block(&hb0, &hb1), a0);

    let mut we0 = hb0;
    if pb {
        let tmp = xor_block(&te, a0);
        we0 = xor_block(&we0, &tmp);
    }

    let output0 = xor_block(&wg0, &we0);

    ((tg, te), output0)
}

/// Evaluate an AND gate from one label per input wire and the ciphertexts.
pub fn eval_and_gate(
    label_a: &Block,
    label_b: &Block,
    garbled_table: &(Block, Block),
    gid: u64,
) -> (r: Block)
    ensures
        r@ == eval_and_of(label_a@, label_b@, garbled_table.0@, garbled_table.1@, gid),
{
    let sa = get_lsb(label_a);
    let sb = get_lsb(label_b);

    let ha = hash_label(label_a, gid, 0);
    let mut wga = ha;
    if sa {
        wga = xor_block(&wga, &garbled_table.0);
    }

    let hb = hash_label(label_b, gid, 1);
    let mut web = hb;
    if sb {
        let tmp = xor_block(&garbled_table.1, label_a);
        web = xor_block(&web, &tmp);
    }

    xor_block(&wga, &web)
}

/// Evaluate a free-XOR gate: the output label is the XOR of the inputs.
pub fn eval_xor_gate(label_a: &Block, label_b: &Block) -> (r: Block)
    ensures
        r@ == bxor16(label_a@, label_b@),
{
    xor_block(label_a, label_b)
}

/// A garbled AND ciphertext: the two half-gate blocks.
#[derive(Debug)]
pub struct Cipher {
    pub tg: Block,
    pub te: Block,
}

/// The garbler's global free-XOR offset.
pub struct GarblerGate {
    pub delta: Block,
}

impl GarblerGate {
    /// Draw a fresh offset; its permute bit is forced to 1 so the two labels
    /// of every wire carry opposite permute bits.
    pub fn new() -> (g: GarblerGate)
        ensures
            lsb(g.delta@),
    {
        let mut delta = rand_block();
        let d0 = delta[0];
        delta[0] = d0 | 1;
        proof {
            assert((d0 | 1) & 1 == 1) by (bit_vector);
        }
        GarblerGate { delta }
    }

    /// Draw a label pair: the free-XOR invariant `L1 = L0 ⊕ Δ` holds by
    /// construction.
    pub fn gen_labels(&self) -> (r: (Block, Block))
        ensures
            r.1@ == bxor16(r.0@, self.delta@),
    {
        let label0 = rand_block();
        let label1 = xor_block(&label0, &self.delta);
        (label0, label1)
    }

    /// Garble an AND gate from both labels of each input wire; the two
    /// output labels again satisfy the free-XOR invariant.
    pub fn garble_and(&self, a0: &Block, a1: &Block, b0: &Block, b1: &Block, gid: u64) -> (r: (
        Block,
        Block,
        Cipher,
    ))
        requires
            a1@ == bxor16(a0@, self.delta@),
            b1@ == bxor16(b0@, self.delta@),
        ensures
            r.2.tg@ == garble_tg(a0@, b0@, self.delta@, gid),
            r.2.te@ == garble_te(a0@, b0@, self.delta@, gid),
            r.0@ == garble_out0(a0@, b0@, self.delta@, gid),
            r.1@ == bxor16(r.0@, self.delta@),
    {
        let pa = get_lsb(a0);
        let pb = get_lsb(b0);

        let ha0 = hash_label(a0, gid, 0);
        let ha1 = hash_label(a1, gid, 0);
        let hb0 = hash_label(b0, gid, 1);
        let hb1 = hash_label(b1, gid, 1);

        let mut tg = xor_block(&ha0, &ha1);
        if pb {
            tg = xor_block(&tg, &self.delta);
        }

        let mut te = xor_block(&hb0, &hb1);
        te = xor_block(&te, a0);

        let mut wg0 = ha0;
        if pa {
            wg0 = xor_block(&wg0, &tg);
        }

        let mut out0 = xor_block(&wg0, &hb0);
        if pb {
            let tmp = xor_block(&te, a0);
            out0 = xor_block(&out0, &tmp);
        }

        let out1 = xor_block(&out0, &self.delta);

        proof {
            let g_out = garble_out0(a0@, b0@, self.delta@, gid);
            assert forall|i: int| 0 <= i < 16 implies out0@[i] == g_out[i] by {
                let w: u8 = wg0@[i];
                let g: u8 = hb0@[i];
                let y: u8 = te@[i];
                let x: u8 = a0@[i];
                assert(((w ^ g) ^ (y ^ x)) == (w ^ (g ^ (y ^ x)))) by (bit_vector);
            }
            assert(out0@ =~= g_out);
        }
        (out0, out1, Cipher { tg, te })
    }

    /// Evaluate an AND gate from one label per wire and the ciphertext.
    pub fn eval_and(la: &Block, lb: &Block, ct: &Cipher, gid: u64) -> (r: Block)
        ensures
            r@ == eval_and_of(la@, lb@, ct.tg@, ct.te@, gid),
    {
        let sa = get_lsb(la);
        let sb = get_lsb(lb);

        let hla = hash_label(la, gid, 0);
        let hlb = hash_label(lb, gid, 1);

        let mut w = hla;
        if sa {
            w = xor_block(&w, &ct.tg);
        }
        w = xor_block(&w, &hlb);
        if sb {
            let term = xor_block(&ct.te, la);
            w = xor_block(&w, &term);
        }
        proof {
            let ev = eval_and_of(la@, lb@, ct.tg@, ct.te@, gid);
            let wga = if lsb(la@) {
                crate::block::bxor16(hla@, ct.tg@)
            } else {
                hla@
            };
            assert forall|i: int| 0 <= i < 16 implies w@[i] == ev[i] by {
                let p: u8 = wga[i];
                let g: u8 = hlb@[i];
                let y: u8 = ct.te@[i];
                let x: u8 = la@[i];
                assert(((p ^ g) ^ (y ^ x)) == (p ^ (g ^ (y ^ x)))) by (bit_vector);
            }
            assert(w@ =~= ev);
        }
        w
    }
}

/// The XOR of two labels has the XOR of their permute bits.
pub proof fn lemma_lsb_xor(a: Seq<u8>, b: Seq<u8>)
    ensures
        lsb(bxor16(a, b)) == (lsb(a) != lsb(b)),
{
    let x = a[0];
    let y = b[0];
    assert(((x ^ y) & 1 == 1) == ((x & 1 == 1) != (y & 1 == 1))) by (bit_vector);
}

/// One byte of the half-gate identity: with the ciphertexts and half-labels
/// built as the garbler builds them, the evaluator's recombination equals
/// the zero-output byte, XOR the offset byte exactly when both bits are 1.
proof fn lemma_and_byte(
    h0: u8,
    h1: u8,
    g0: u8,
    g1: u8,
    av: u8,
    dd: u8,
    pa: bool,
    pb: bool,
    a: bool,
    b: bool,
)
    by (bit_vector)
    ensures
        ({
            let tg = if pb {
                (h0 ^ h1) ^ dd
            } else {
                h0 ^ h1
            };
            let te = (g0 ^ g1) ^ av;
            let wg0 = if pa {
                h0 ^ tg
            } else {
                h0
            };
            let we0 = if pb {
                g0 ^ (te ^ av)
            } else {
                g0
            };
            let out0 = wg0 ^ we0;
            let lav = if a {
                av ^ dd
            } else {
                av
            };
            let ha = if a {
                h1
            } else {
                h0
            };
            let hb = if b {
                g1
            } else {
                g0
            };
            let wga = if pa != a {
                ha ^ tg
            } else {
                ha
            };
            let web = if pb != b {
                hb ^ (te ^ lav)
            } else {
                hb
            };
            let w = wga ^ web;
            w == if a && b {
                out0 ^ dd
            } else {
                out0
            }
        }),
{
}

/// AND-gate correctness: for every pair of zero labels, every offset with
/// permute bit 1, every gate id and all four input bit pairs, evaluating
/// the garbled gate with the labels for `(a, b)` yields the output label
/// for `a AND b`.
pub proof fn lemma_and_gate_correct(a0: Seq<u8>, b0: Seq<u8>, delta: Seq<u8>, gid: u64, a: bool, b: bool)
    requires
        lsb(delta),
    ensures
        ({
            let la = if a {
                bxor16(a0, delta)
            } else {
                a0
            };
            let lb = if b {
                bxor16(b0, delta)
            } else {
                b0
            };
            let w = eval_and_of(
                la,
                lb,
                garble_tg(a0, b0, delta, gid),
                garble_te(a0, b0, delta, gid),
                gid,
            );
            let out0 = garble_out0(a0, b0, delta, gid);
            w == if a && b {
                bxor16(out0, delta)
            } else {
                out0
            }
        }),
{
    let la = if a {
        bxor16(a0, delta)
    } else {
        a0
    };
    let lb = if b {
        bxor16(b0, delta)
    } else {
        b0
    };
    let tg = garble_tg(a0, b0, delta, gid);
    let te = garble_te(a0, b0, delta, gid);
    let out0 = garble_out0(a0, b0, delta, gid);
    let w = eval_and_of(la, lb, tg, te, gid);
    let rhs = if a && b {
        bxor16(out0, delta)
    } else {
        out0
    };
    let ha0 = hash_label_of(a0, gid, 0);
    let ha1 = hash_label_of(bxor16(a0, delta), gid, 0);
    let hb0 = hash_label_of(b0, gid, 1);
    let hb1 = hash_label_of(bxor16(b0, delta), gid, 1);
    lemma_lsb_xor(a0, delta);
    lemma_lsb_xor(b0, delta);
    assert(lsb(la) == (lsb(a0) != a));
    assert(lsb(lb) == (lsb(b0) != b));
    assert forall|i: int| 0 <= i < 16 implies w[i] == rhs[i] by {
        lemma_and_byte(
            ha0[i],
            ha1[i],
            hb0[i],
            hb1[i],
            a0[i],
            delta[i],
            lsb(a0),
            lsb(b0),
            a,
            b,
        );
    }
    assert(w =~= rhs);
}

} // verus!
