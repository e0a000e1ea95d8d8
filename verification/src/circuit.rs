//! The two-party circuit for `z = a ⊕ ((b ⊕ x) & y)`: the garbler draws the
//! offset and four label pairs, garbles the one AND gate (the XOR gates are
//! free), and publishes the zero-output label for decoding.  The evaluator
//! recombines its four input labels and the ciphertext into the output
//! label.  The truth-table theorem below ties the two together for all
//! sixteen inputs.
use vstd::prelude::*;
use crate::block::{bxor16, eq_block, lsb, xor_block, Block};
use crate::gates::{
    eval_and_gate, eval_and_of, eval_xor_gate, garble_out0, garble_te, garble_tg,
    lemma_and_gate_correct, Cipher, GarblerGate,
};

verus! {

/// The Boolean function both parties compute.
pub open spec fn formula(a: bool, b: bool, x: bool, y: bool) -> bool {
    a != ((b != x) && y)
}

/// Everything the garbler holds for one session: the offset, both labels
/// of each input wire, the AND-gate ciphertext, and the zero-output label.
pub struct GarbledFormula {
    pub delta: Block,
    pub a0: Block,
    pub a1: Block,
    pub b0: Block,
    pub b1: Block,
    pub x0: Block,
    pub x1: Block,
    pub y0: Block,
    pub y1: Block,
    pub and_ct: Cipher,
    pub z0: Block,
}

/// The domain separator of the single AND gate.
pub const AND_GATE_ID: u64 = 1;

/// The garbler's output is honest: every label pair satisfies the free-XOR
/// invariant, and the ciphertext and zero-output label garble the AND gate
/// whose left wire is the free XOR of the `b` and `x` wires.
pub open spec fn garbled_formula_wf(g: GarbledFormula) -> bool {
    &&& lsb(g.delta@)
    &&& g.a1@ == bxor16(g.a0@, g.delta@)
    &&& g.b1@ == bxor16(g.b0@, g.delta@)
    &&& g.x1@ == bxor16(g.x0@, g.delta@)
    &&& g.y1@ == bxor16(g.y0@, g.delta@)
    &&& g.and_ct.tg@ == garble_tg(bxor16(g.b0@, g.x0@), g.y0@, g.delta@, AND_GATE_ID)
    &&& g.and_ct.te@ == garble_te(bxor16(g.b0@, g.x0@), g.y0@, g.delta@, AND_GATE_ID)
    &&& g.z0@ == bxor16(g.a0@, garble_out0(bxor16(g.b0@, g.x0@), g.y0@, g.delta@, AND_GATE_ID))
}

/// One byte of the free-XOR selection identity: XOR of two labels selected
/// by bits equals the zero XOR, offset by Δ exactly when the bits differ.
proof fn lemma_xor_choice_byte(p: u8, q: u8, dd: u8, s: bool, t: bool)
    by (bit_vector)
    ensures
        ((if s {
            p ^ dd
        } else {
            p
        }) ^ (if t {
            q ^ dd
        } else {
            q
        })) == (if s != t {
            (p ^ q) ^ dd
        } else {
            p ^ q
        }),
{
}

/// XOR of two bit-selected labels: label-level form of the selection
/// identity.
pub proof fn lemma_xor_choice(p: Seq<u8>, q: Seq<u8>, delta: Seq<u8>, s: bool, t: bool)
    ensures
        bxor16(if s { bxor16(p, delta) } else { p }, if t { bxor16(q, delta) } else { q })
            =~= (if s != t {
            bxor16(bxor16(p, q), delta)
        } else {
            bxor16(p, q)
        }),
{
    let lhs = bxor16(if s { bxor16(p, delta) } else { p }, if t { bxor16(q, delta) } else { q });
    let rhs = if s != t {
        bxor16(bxor16(p, q), delta)
    } else {
        bxor16(p, q)
    };
    assert forall|i: int| 0 <= i < 16 implies lhs[i] == rhs[i] by {
        lemma_xor_choice_byte(p[i], q[i], delta[i], s, t);
    }
}

/// Garble the session's circuit: a fresh offset, four label pairs, the AND
/// ciphertext and the zero-output label.
pub fn garble_formula() -> (g: GarbledFormula)
    ensures
        garbled_formula_wf(g),
{
    let gg = GarblerGate::new();
    let (a0, a1) = gg.gen_labels();
    let (b0, b1) = gg.gen_labels();
    let (x0, x1) = gg.gen_labels();
    let (y0, y1) = gg.gen_labels();

    let w1_0 = xor_block(&b0, &x0);
    let w1_1 = xor_block(&b0, &x1);
    proof {
        lemma_xor_choice(b0@, x0@, gg.delta@, false, true);
        assert(w1_1@ =~= bxor16(w1_0@, gg.delta@));
    }
    let (w2_0, _w2_1, and_ct) = gg.garble_and(&w1_0, &w1_1, &y0, &y1, AND_GATE_ID);
    let z0 = xor_block(&a0, &w2_0);

    GarbledFormula { delta: gg.delta, a0, a1, b0, b1, x0, x1, y0, y1, and_ct, z0 }
}

/// Evaluate the circuit from one label per input wire and the AND
/// ciphertext: free XOR, the AND gate, then free XOR again.
pub fn eval_formula(la: &Block, lb: &Block, lx: &Block, ly: &Block, ct: &Cipher) -> (r: Block)
    ensures
        r@ == bxor16(la@, eval_and_of(bxor16(lb@, lx@), ly@, ct.tg@, ct.te@, AND_GATE_ID)),
{
    let lw1 = eval_xor_gate(lb, lx);
    let table = (ct.tg, ct.te);
    let lw2 = eval_and_gate(&lw1, ly, &table, AND_GATE_ID);
    eval_xor_gate(la, &lw2)
}

/// Decode the output label against the published zero label.
pub fn decode_output(lz: &Block, z0: &Block) -> (r: u8)
    ensures
        r == (if lz@ == z0@ {
            0u8
        } else {
            1u8
        }),
{
    if eq_block(lz, z0) {
        0
    } else {
        1
    }
}

/// Truth-table correctness of the garbled circuit: for every honest garbling
/// and all sixteen input combinations, the evaluator's label is the output
/// label for `a ⊕ ((b ⊕ x) & y)`, and comparing against the published zero
/// label decodes exactly that bit.
pub proof fn lemma_formula_correct(g: GarbledFormula, a: bool, b: bool, x: bool, y: bool)
    requires
        garbled_formula_wf(g),
    ensures
        ({
            let la = if a { g.a1@ } else { g.a0@ };
            let lb = if b { g.b1@ } else { g.b0@ };
            let lx = if x { g.x1@ } else { g.x0@ };
            let ly = if y { g.y1@ } else { g.y0@ };
            let lz = bxor16(la, eval_and_of(bxor16(lb, lx), ly, g.and_ct.tg@, g.and_ct.te@, AND_GATE_ID));
            &&& (formula(a, b, x, y) ==> lz == bxor16(g.z0@, g.delta@))
            &&& (!formula(a, b, x, y) ==> lz == g.z0@)
            &&& ((lz == g.z0@) <==> !formula(a, b, x, y))
        }),
{
    let la = if a { g.a1@ } else { g.a0@ };
    let lb = if b { g.b1@ } else { g.b0@ };
    let lx = if x { g.x1@ } else { g.x0@ };
    let ly = if y { g.y1@ } else { g.y0@ };
    let w1_0 = bxor16(g.b0@, g.x0@);
    let gbit = (b != x) && y;
    let out0 = garble_out0(w1_0, g.y0@, g.delta@, AND_GATE_ID);

    // the free-XOR of the two selected labels selects on the XOR of the bits
    lemma_xor_choice(g.b0@, g.x0@, g.delta@, b, x);
    assert(bxor16(lb, lx) =~= (if b != x {
        bxor16(w1_0, g.delta@)
    } else {
        w1_0
    }));

    // the AND gate yields the output label for `(b ⊕ x) & y`
    lemma_and_gate_correct(w1_0, g.y0@, g.delta@, AND_GATE_ID, b != x, y);
    let w2 = eval_and_of(bxor16(lb, lx), ly, g.and_ct.tg@, g.and_ct.te@, AND_GATE_ID);
    assert(w2 == if gbit {
        bxor16(out0, g.delta@)
    } else {
        out0
    });

    // the final free XOR selects on `a ⊕ ((b ⊕ x) & y)`
    let lz = bxor16(la, w2);
    assert forall|i: int| 0 <= i < 16 implies lz[i] == (if a != gbit {
        bxor16(bxor16(g.a0@, out0), g.delta@)
    } else {
        bxor16(g.a0@, out0)
    })[i] by {
        lemma_xor_choice_byte(g.a0@[i], out0[i], g.delta@[i], a, gbit);
    }
    assert(g.z0@ =~= bxor16(g.a0@, out0));
    if formula(a, b, x, y) {
        assert(lz =~= bxor16(g.z0@, g.delta@));
        // the two output labels differ in their permute bit
        let z: u8 = g.z0@[0];
        let d: u8 = g.delta@[0];
        assert(d & 1 == 1 ==> (z ^ d) != z) by (bit_vector);
        assert(lz[0] != g.z0@[0]);
        assert(lz != g.z0@);
    } else {
        assert(lz =~= g.z0@);
    }
}

} // verus!
