use zkgc::block::{xor_block, Block};
use zkgc::circuit::{decode_output, eval_formula, garble_formula};
use zkgc::gates::{eval_and_gate, eval_xor_gate, garble_and_gate, GarblerGate};
use zkgc::rng::rand_block;

fn gen_delta() -> Block {
    let mut delta = rand_block();
    delta[0] |= 1;
    delta
}

#[test]
fn test_and_gate() {
    let delta = gen_delta();
    let gid: u64 = 100;

    let a0 = rand_block();
    let a1 = xor_block(&a0, &delta);

    let b0 = rand_block();
    let b1 = xor_block(&b0, &delta);

    let (table, out0) = garble_and_gate(&a0, &b0, &delta, gid);
    let out1 = xor_block(&out0, &delta);

    let scenarios = vec![
        (false, false, false), // 00=0
        (false, true, false),  // 01=0
        (true, false, false),  // 10=0
        (true, true, true),    // 11=1
    ];

    for (val_a, val_b, expected) in scenarios {
        println!("Testing AND gate with inputs: {} & {}", val_a, val_b);
        let label_a = if val_a { &a1 } else { &a0 };
        let label_b = if val_b { &b1 } else { &b0 };

        let eval_out = eval_and_gate(label_a, label_b, &table, gid);

        println!("Evaluated output label: {:?}", eval_out);

        let expected_label = if expected { &out1 } else { &out0 };

        println!("Expected output label: {:?}", expected_label);

        assert_eq!(eval_out, *expected_label, "AND gate failed for inputs: {} AND {}", val_a, val_b);
    }
}

#[test]
fn test_xor() {
    let delta = gen_delta();

    let a0 = rand_block();
    let a1 = xor_block(&a0, &delta);

    let b0 = rand_block();
    let b1 = xor_block(&b0, &delta);

    let c0 = xor_block(&a0, &b0);
    let c1 = xor_block(&c0, &delta);

    let scenarios = vec![
        (false, false, false), // 00=0
        (false, true, true),   // 01=1
        (true, false, true),   // 10=1
        (true, true, false),   // 11=0
    ];

    for (val_a, val_b, expected) in scenarios {
        println!("Testing XOR gate with inputs: {} ^ {}", val_a, val_b);
        let label_a = if val_a { &a1 } else { &a0 };
        let label_b = if val_b { &b1 } else { &b0 };

        let eval_out = xor_block(label_a, label_b);

        println!("Evaluated output label: {:?}", eval_out);

        let expected_label = if expected { &c1 } else { &c0 };

        println!("Expected output label: {:?}", expected_label);

        assert_eq!(eval_out, *expected_label, "XOR gate failed for inputs: {} XOR {}", val_a, val_b);
    }
}

#[test]
fn garbler_gate_free_xor_invariant() {
    let gg = GarblerGate::new();
    assert_eq!(gg.delta[0] & 1, 1);
    let (l0, l1) = gg.gen_labels();
    assert_eq!(l1, xor_block(&l0, &gg.delta));
    let (b0, b1) = gg.gen_labels();
    let (w0, w1, _ct) = gg.garble_and(&l0, &l1, &b0, &b1, 7);
    assert_eq!(w1, xor_block(&w0, &gg.delta));
}

#[test]
fn garbler_gate_eval_matches_free_standing_gate() {
    let gg = GarblerGate::new();
    let (a0, a1) = gg.gen_labels();
    let (b0, b1) = gg.gen_labels();
    let (w0, w1, ct) = gg.garble_and(&a0, &a1, &b0, &b1, 9);
    for (va, vb) in [(false, false), (false, true), (true, false), (true, true)] {
        let la = if va { &a1 } else { &a0 };
        let lb = if vb { &b1 } else { &b0 };
        let out = GarblerGate::eval_and(la, lb, &ct, 9);
        let expected = if va && vb { &w1 } else { &w0 };
        assert_eq!(out, *expected);
    }
}

#[test]
fn garbled_circuit_truth_table() {
    let g = garble_formula();
    for bits in 0..16u32 {
        let a = bits & 1 == 1;
        let b = bits & 2 == 2;
        let x = bits & 4 == 4;
        let y = bits & 8 == 8;
        let la = if a { g.a1 } else { g.a0 };
        let lb = if b { g.b1 } else { g.b0 };
        let lx = if x { g.x1 } else { g.x0 };
        let ly = if y { g.y1 } else { g.y0 };
        let lz = eval_formula(&la, &lb, &lx, &ly, &g.and_ct);
        let z = decode_output(&lz, &g.z0);
        let expected = if a != ((b != x) && y) { 1u8 } else { 0u8 };
        assert_eq!(z, expected, "formula failed for a={} b={} x={} y={}", a, b, x, y);
    }
}
