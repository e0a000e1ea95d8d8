//! The canonical binary encoding of the proof-protocol messages, and the
//! 4-byte big-endian length framing both subsystems share.  Encoders and
//! decoders are exact inverses: the decoding of an encoded message is proved
//! to give the message back, for every well-formed message.
use vstd::prelude::*;
use vstd::string::StrSliceExecFns;
use vstd::utf8::{decode_utf8, valid_utf8};
use vstd::arithmetic::div_mod::{
    lemma_fundamental_div_mod, lemma_fundamental_div_mod_converse,
    lemma_mod_division_less_than_divisor,
};
use crate::byteops::{be64, be64_value, lemma_be64_roundtrip, push_be64, read_be64};
use crate::challenge::ChallengeType;
use crate::messages::{
    BoxReveal, ClueResponse, ClueReveal, CommitmentMessage, LineReveal, ProverMessage,
    PuzzleMessage, ResponseMessage, RevealPayload, VerifierMessage,
};

verus! {

// ---------------------------------------------------------------------
// primitives: single bytes, 64-bit integers, fixed byte runs, fixed
// 64-bit-integer runs
// ---------------------------------------------------------------------

/// Decode one byte.
pub open spec fn dec_u8(b: Seq<u8>, pos: int) -> Option<(u8, int)> {
    if 0 <= pos && pos + 1 <= b.len() {
        Option::Some((b[pos], pos + 1))
    } else {
        Option::None
    }
}

/// Decode eight big-endian bytes.
pub open spec fn dec_u64(b: Seq<u8>, pos: int) -> Option<(u64, int)> {
    if 0 <= pos && pos + 8 <= b.len() {
        Option::Some((be64_value(b.subrange(pos, pos + 8)), pos + 8))
    } else {
        Option::None
    }
}

/// Decode a run of `n` raw bytes.
pub open spec fn dec_bytes(b: Seq<u8>, pos: int, n: int) -> Option<(Seq<u8>, int)> {
    if 0 <= pos && n >= 0 && pos + n <= b.len() {
        Option::Some((b.subrange(pos, pos + n), pos + n))
    } else {
        Option::None
    }
}

/// The encoding of a run of 64-bit integers: eight big-endian bytes each.
pub open spec fn enc_u64s(vs: Seq<u64>) -> Seq<u8> {
    Seq::new(vs.len() * 8, |j: int| be64(vs[j / 8])[j % 8])
}

/// Decode a run of `n` 64-bit integers.
pub open spec fn dec_u64s(b: Seq<u8>, pos: int, n: int) -> Option<(Seq<u64>, int)> {
    if 0 <= pos && n >= 0 && pos + 8 * n <= b.len() {
        Option::Some(
            (Seq::new(n as nat, |i: int| be64_value(b.subrange(pos + 8 * i, pos + 8 * i + 8))), pos
                + 8 * n),
        )
    } else {
        Option::None
    }
}

/// Reading a 64-bit value back from its position inside a buffer that holds
/// its encoding.
pub proof fn lemma_dec_u64_at(b: Seq<u8>, pos: int, x: u64)
    requires
        0 <= pos,
        pos + 8 <= b.len(),
        b.subrange(pos, pos + 8) == be64(x),
    ensures
        dec_u64(b, pos) == Option::Some((x, pos + 8)),
{
    lemma_be64_roundtrip(x);
}

/// Decoding a run of integers from a buffer that holds their encoding gives
/// the run back.
pub proof fn lemma_dec_u64s_at(b: Seq<u8>, pos: int, vs: Seq<u64>)
    requires
        0 <= pos,
        pos + 8 * vs.len() <= b.len(),
        b.subrange(pos, pos + 8 * vs.len() as int) == enc_u64s(vs),
    ensures
        dec_u64s(b, pos, vs.len() as int) == Option::Some((vs, pos + 8 * vs.len())),
{
    let n = vs.len() as int;
    let dec = Seq::new(vs.len(), |i: int| be64_value(b.subrange(pos + 8 * i, pos + 8 * i + 8)));
    assert forall|i: int| 0 <= i < n implies dec[i] == vs[i] by {
        assert(b.subrange(pos + 8 * i, pos + 8 * i + 8) =~= be64(vs[i])) by {
            assert forall|k: int| 0 <= k < 8 implies b.subrange(pos + 8 * i, pos + 8 * i + 8)[k]
                == be64(vs[i])[k] by {
                let j = 8 * i + k;
                assert(b[pos + j] == b.subrange(pos, pos + 8 * n)[j]);
                assert(enc_u64s(vs)[j] == be64(vs[j / 8])[j % 8]);
                lemma_fundamental_div_mod_converse(j, 8, i, k);
            }
        }
        lemma_be64_roundtrip(vs[i]);
    }
    assert(dec =~= vs);
}

/// Append a run of 64-bit integers in big-endian order.
pub fn push_u64s(out: &mut Vec<u8>, vs: &Vec<u64>)
    ensures
        final(out)@ == old(out)@ + enc_u64s(vs@),
{
    let mut i: usize = 0;
    while i < vs.len()
        invariant
            i <= vs@.len(),
            out@ == old(out)@ + enc_u64s(vs@.take(i as int)),
        decreases vs@.len() - i,
    {
        push_be64(out, vs[i]);
        proof {
            assert(out@ =~= old(out)@ + enc_u64s(vs@.take(i as int + 1))) by {
                let a = enc_u64s(vs@.take(i as int)) + be64(vs@[i as int]);
                let c = enc_u64s(vs@.take(i as int + 1));
                assert forall|j: int| 0 <= j < c.len() implies a[j] == c[j] by {
                    if j < 8 * i {
                        lemma_fundamental_div_mod(j, 8);
                        assert(vs@.take(i as int)[j / 8] == vs@.take(i as int + 1)[j / 8]) by {
                            lemma_mod_division_less_than_divisor(j, 8);
                        }
                    } else {
                        lemma_fundamental_div_mod_converse(j, 8, i as int, j - 8 * i);
                    }
                }
                assert(a =~= c);
            }
        }
        i = i + 1;
    }
    proof {
        assert(vs@.take(vs@.len() as int) =~= vs@);
    }
}

/// Read `n` raw bytes from `buf` at `pos`.
pub fn read_bytes(buf: &[u8], pos: usize, n: usize) -> (r: Option<(Vec<u8>, usize)>)
    ensures
        match r {
            Option::Some(p) => dec_bytes(buf@, pos as int, n as int) == Option::Some(
                (p.0@, p.1 as int),
            ),
            Option::None => dec_bytes(buf@, pos as int, n as int) is None,
        },
{
    let blen = buf.len();
    if n > blen || pos > blen - n {
        return Option::None;
    }
    let mut out: Vec<u8> = Vec::new();
    let mut i: usize = 0;
    while i < n
        invariant
            i <= n,
            pos + n <= buf@.len(),
            buf@.len() <= usize::MAX,
            out@ == buf@.subrange(pos as int, pos as int + i as int),
        decreases n - i,
    {
        out.push(buf[pos + i]);
        assert(out@ =~= buf@.subrange(pos as int, pos as int + i as int + 1));
        i = i + 1;
    }
    Option::Some((out, pos + n))
}

/// Read `n` big-endian 64-bit integers from `buf` at `pos`.
pub fn read_u64s(buf: &[u8], pos: usize, n: usize) -> (r: Option<(Vec<u64>, usize)>)
    ensures
        match r {
            Option::Some(p) => dec_u64s(buf@, pos as int, n as int) == Option::Some(
                (p.0@, p.1 as int),
            ),
            Option::None => dec_u64s(buf@, pos as int, n as int) is None,
        },
{
    let blen = buf.len();
    if n > usize::MAX / 8 {
        proof {
            assert(8 * (n as int) > usize::MAX);
        }
        return Option::None;
    }
    let total = 8 * n;
    if total > blen || pos > blen - total {
        return Option::None;
    }
    let mut out: Vec<u64> = Vec::new();
    let mut i: usize = 0;
    while i < n
        invariant
            i <= n,
            pos + 8 * n <= buf@.len(),
            buf@.len() <= usize::MAX,
            out@.len() == i,
            forall|k: int|
                0 <= k < i ==> out@[k] == be64_value(
                    buf@.subrange(pos + 8 * k, pos + 8 * k + 8),
                ),
        decreases n - i,
    {
        let x = read_be64(buf, pos + 8 * i);
        out.push(x);
        i = i + 1;
    }
    proof {
        let spec_out = Seq::new(n as nat, |k: int| be64_value(
            buf@.subrange(pos + 8 * k, pos + 8 * k + 8),
        ));
        assert(out@ =~= spec_out);
    }
    Option::Some((out, pos + total))
}

// ---------------------------------------------------------------------
// ghost views of the messages: the same shape with mathematical fields
// ---------------------------------------------------------------------

pub struct LineRevealV {
    pub index: usize,
    pub values: Seq<u8>,
    pub randomness: Seq<u64>,
}

pub struct BoxRevealV {
    pub index: usize,
    pub values: Seq<Seq<u8>>,
    pub randomness: Seq<Seq<u64>>,
}

pub struct ClueRevealV {
    pub row: usize,
    pub col: usize,
    pub mapped_value: u8,
    pub randomness: u64,
}

pub struct ClueResponseV {
    pub mapping: Seq<u8>,
    pub mapping_randomness: Seq<u64>,
    pub clues: Seq<ClueRevealV>,
}

pub enum RevealPayloadV {
    Row(LineRevealV),
    Col(LineRevealV),
    Box(BoxRevealV),
    Clue(ClueResponseV),
}

pub struct ResponseV {
    pub round: usize,
    pub payload: RevealPayloadV,
}

pub struct PuzzleV {
    pub puzzle: Seq<Seq<u8>>,
    pub clues: usize,
}

pub struct CommitmentV {
    pub round: usize,
    pub board_commit: Seq<Seq<u64>>,
    pub mapping_commit: Seq<u64>,
}

pub enum ProverMessageV {
    Puzzle(PuzzleV),
    Commitment(CommitmentV),
    Response(ResponseV),
    Abort(Seq<char>),
}

pub enum VerifierMessageV {
    PuzzleAck { rounds: usize },
    Challenge { round: usize, challenge: ChallengeType },
    RoundResult { round: usize, accepted: bool, reason: Option<Seq<char>> },
    FinalResult { accepted: bool },
    Abort(Seq<char>),
}

pub open spec fn line_view(l: LineReveal) -> LineRevealV {
    LineRevealV { index: l.index, values: l.values@, randomness: l.randomness@ }
}

pub open spec fn box_view(l: BoxReveal) -> BoxRevealV {
    BoxRevealV { index: l.index, values: l.values.deep_view(), randomness: l.randomness.deep_view() }
}

pub open spec fn clue_view(c: ClueReveal) -> ClueRevealV {
    ClueRevealV { row: c.row, col: c.col, mapped_value: c.mapped_value, randomness: c.randomness }
}

pub open spec fn clue_response_view(c: ClueResponse) -> ClueResponseV {
    ClueResponseV {
        mapping: c.mapping@,
        mapping_randomness: c.mapping_randomness@,
        clues: c.clues@.map_values(|e: ClueReveal| clue_view(e)),
    }
}

pub open spec fn payload_view(p: RevealPayload) -> RevealPayloadV {
    match p {
        RevealPayload::Row(l) => RevealPayloadV::Row(line_view(l)),
        RevealPayload::Col(l) => RevealPayloadV::Col(line_view(l)),
        RevealPayload::Box(l) => RevealPayloadV::Box(box_view(l)),
        RevealPayload::Clue(c) => RevealPayloadV::Clue(clue_response_view(c)),
    }
}

pub open spec fn response_view(m: ResponseMessage) -> ResponseV {
    ResponseV { round: m.round, payload: payload_view(m.payload) }
}

pub open spec fn puzzle_view(m: PuzzleMessage) -> PuzzleV {
    PuzzleV { puzzle: m.puzzle.deep_view(), clues: m.clues }
}

pub open spec fn commitment_view(m: CommitmentMessage) -> CommitmentV {
    CommitmentV {
        round: m.round,
        board_commit: m.board_commit.deep_view(),
        mapping_commit: m.mapping_commit@,
    }
}

pub open spec fn prover_msg_view(m: ProverMessage) -> ProverMessageV {
    match m {
        ProverMessage::Puzzle(p) => ProverMessageV::Puzzle(puzzle_view(p)),
        ProverMessage::Commitment(c) => ProverMessageV::Commitment(commitment_view(c)),
        ProverMessage::Response(r) => ProverMessageV::Response(response_view(r)),
        ProverMessage::Abort(s) => ProverMessageV::Abort(s@),
    }
}

pub open spec fn verifier_msg_view(m: VerifierMessage) -> VerifierMessageV {
    match m {
        VerifierMessage::PuzzleAck { rounds } => VerifierMessageV::PuzzleAck { rounds },
        VerifierMessage::Challenge { round, challenge } => VerifierMessageV::Challenge {
            round,
            challenge,
        },
        VerifierMessage::RoundResult { round, accepted, reason } => VerifierMessageV::RoundResult {
            round,
            accepted,
            reason: match reason {
                Option::Some(s) => Option::Some(s@),
                Option::None => Option::None,
            },
        },
        VerifierMessage::FinalResult { accepted } => VerifierMessageV::FinalResult { accepted },
        VerifierMessage::Abort(s) => VerifierMessageV::Abort(s@),
    }
}

// ---------------------------------------------------------------------
// well-formedness: the fixed shapes of the wire format
// ---------------------------------------------------------------------

pub open spec fn grid_u8_wf(g: Seq<Seq<u8>>, rows: int, cols: int) -> bool {
    g.len() == rows && forall|r: int| 0 <= r < rows ==> (#[trigger] g[r]).len() == cols
}

pub open spec fn grid_u64_wf(g: Seq<Seq<u64>>, rows: int, cols: int) -> bool {
    g.len() == rows && forall|r: int| 0 <= r < rows ==> (#[trigger] g[r]).len() == cols
}

pub open spec fn line_v_wf(v: LineRevealV) -> bool {
    v.values.len() == 9 && v.randomness.len() == 9
}

pub open spec fn box_v_wf(v: BoxRevealV) -> bool {
    grid_u8_wf(v.values, 3, 3) && grid_u64_wf(v.randomness, 3, 3)
}

pub open spec fn clue_response_v_wf(v: ClueResponseV) -> bool {
    v.mapping.len() == 10 && v.mapping_randomness.len() == 10 && v.clues.len() <= usize::MAX
}

pub open spec fn payload_v_wf(v: RevealPayloadV) -> bool {
    match v {
        RevealPayloadV::Row(l) => line_v_wf(l),
        RevealPayloadV::Col(l) => line_v_wf(l),
        RevealPayloadV::Box(b) => box_v_wf(b),
        RevealPayloadV::Clue(c) => clue_response_v_wf(c),
    }
}

pub open spec fn puzzle_v_wf(v: PuzzleV) -> bool {
    grid_u8_wf(v.puzzle, 9, 9)
}

pub open spec fn commitment_v_wf(v: CommitmentV) -> bool {
    grid_u64_wf(v.board_commit, 9, 9) && v.mapping_commit.len() == 10
}

pub open spec fn prover_v_wf(v: ProverMessageV) -> bool {
    match v {
        ProverMessageV::Puzzle(p) => puzzle_v_wf(p),
        ProverMessageV::Commitment(c) => commitment_v_wf(c),
        ProverMessageV::Response(r) => payload_v_wf(r.payload),
        ProverMessageV::Abort(s) => str_encodable(s),
    }
}

pub open spec fn verifier_v_wf(v: VerifierMessageV) -> bool {
    match v {
        VerifierMessageV::PuzzleAck { rounds } => true,
        VerifierMessageV::Challenge { round, challenge } => true,
        VerifierMessageV::RoundResult { round, accepted, reason } => match reason {
            Option::Some(s) => str_encodable(s),
            Option::None => true,
        },
        VerifierMessageV::FinalResult { accepted } => true,
        VerifierMessageV::Abort(s) => str_encodable(s),
    }
}

/// The UTF-8 encoding of the text fits in one allocation and under the
/// 64-bit length prefix.
pub open spec fn str_encodable(s: Seq<char>) -> bool {
    vstd::utf8::encode_utf8(s).len() <= usize::MAX
}

// ---------------------------------------------------------------------
// flattening of fixed-size grids
// ---------------------------------------------------------------------

pub open spec fn flat_u8(g: Seq<Seq<u8>>, rows: int, cols: int) -> Seq<u8> {
    Seq::new((rows * cols) as nat, |j: int| g[j / cols][j % cols])
}

pub open spec fn unflat_u8(s: Seq<u8>, rows: int, cols: int) -> Seq<Seq<u8>> {
    Seq::new(rows as nat, |r: int| Seq::new(cols as nat, |c: int| s[r * cols + c]))
}

pub open spec fn flat_u64(g: Seq<Seq<u64>>, rows: int, cols: int) -> Seq<u64> {
    Seq::new((rows * cols) as nat, |j: int| g[j / cols][j % cols])
}

pub open spec fn unflat_u64(s: Seq<u64>, rows: int, cols: int) -> Seq<Seq<u64>> {
    Seq::new(rows as nat, |r: int| Seq::new(cols as nat, |c: int| s[r * cols + c]))
}

pub proof fn lemma_unflat_flat_u8(g: Seq<Seq<u8>>, rows: int, cols: int)
    requires
        0 < rows,
        0 < cols,
        grid_u8_wf(g, rows, cols),
    ensures
        unflat_u8(flat_u8(g, rows, cols), rows, cols) == g,
{
    let u = unflat_u8(flat_u8(g, rows, cols), rows, cols);
    assert forall|r: int| 0 <= r < rows implies u[r] == g[r] by {
        assert forall|c: int| 0 <= c < cols implies u[r][c] == g[r][c] by {
            lemma_fundamental_div_mod_converse(r * cols + c, cols, r, c);
            assert(0 <= r * cols + c < rows * cols) by (nonlinear_arith)
                requires
                    0 <= r < rows,
                    0 <= c < cols,
            ;
        }
        assert(u[r] =~= g[r]);
    }
    assert(u =~= g);
}

pub proof fn lemma_unflat_flat_u64(g: Seq<Seq<u64>>, rows: int, cols: int)
    requires
        0 < rows,
        0 < cols,
        grid_u64_wf(g, rows, cols),
    ensures
        unflat_u64(flat_u64(g, rows, cols), rows, cols) == g,
{
    let u = unflat_u64(flat_u64(g, rows, cols), rows, cols);
    assert forall|r: int| 0 <= r < rows implies u[r] == g[r] by {
        assert forall|c: int| 0 <= c < cols implies u[r][c] == g[r][c] by {
            lemma_fundamental_div_mod_converse(r * cols + c, cols, r, c);
            assert(0 <= r * cols + c < rows * cols) by (nonlinear_arith)
                requires
                    0 <= r < rows,
                    0 <= c < cols,
            ;
        }
        assert(u[r] =~= g[r]);
    }
    assert(u =~= g);
}

// ---------------------------------------------------------------------
// the wire grammar: encoders and decoders at the specification level
// ---------------------------------------------------------------------

pub open spec fn enc_bool(x: bool) -> Seq<u8> {
    if x {
        seq![1u8]
    } else {
        seq![0u8]
    }
}

pub open spec fn dec_bool(b: Seq<u8>, pos: int) -> Option<(bool, int)> {
    match dec_u8(b, pos) {
        Option::None => Option::None,
        Option::Some((t, p)) => if t == 0 {
            Option::Some((false, p))
        } else if t == 1 {
            Option::Some((true, p))
        } else {
            Option::None
        },
    }
}

/// A `usize` encoded as eight big-endian bytes.
pub open spec fn enc_usize(x: usize) -> Seq<u8> {
    be64(x as u64)
}

pub open spec fn dec_usize(b: Seq<u8>, pos: int) -> Option<(usize, int)> {
    match dec_u64(b, pos) {
        Option::None => Option::None,
        Option::Some((x, p)) => if x <= usize::MAX {
            Option::Some((x as usize, p))
        } else {
            Option::None
        },
    }
}

pub open spec fn enc_string(s: Seq<char>) -> Seq<u8> {
    be64(vstd::utf8::encode_utf8(s).len() as u64) + vstd::utf8::encode_utf8(s)
}

pub open spec fn dec_string(b: Seq<u8>, pos: int) -> Option<(Seq<char>, int)> {
    match dec_u64(b, pos) {
        Option::None => Option::None,
        Option::Some((n, p1)) => if n <= usize::MAX {
            match dec_bytes(b, p1, n as int) {
                Option::None => Option::None,
                Option::Some((bytes, p2)) => if vstd::utf8::valid_utf8(bytes) {
                    Option::Some((vstd::utf8::decode_utf8(bytes), p2))
                } else {
                    Option::None
                },
            }
        } else {
            Option::None
        },
    }
}

pub open spec fn enc_opt_string(s: Option<Seq<char>>) -> Seq<u8> {
    match s {
        Option::None => seq![0u8],
        Option::Some(t) => seq![1u8] + enc_string(t),
    }
}

pub open spec fn dec_opt_string(b: Seq<u8>, pos: int) -> Option<(Option<Seq<char>>, int)> {
    match dec_u8(b, pos) {
        Option::None => Option::None,
        Option::Some((t, p1)) => if t == 0 {
            Option::Some((Option::None, p1))
        } else if t == 1 {
            match dec_string(b, p1) {
                Option::None => Option::None,
                Option::Some((s, p2)) => Option::Some((Option::Some(s), p2)),
            }
        } else {
            Option::None
        },
    }
}

pub open spec fn enc_challenge(c: ChallengeType) -> Seq<u8> {
    match c {
        ChallengeType::Row(k) => seq![0u8] + enc_usize(k),
        ChallengeType::Col(k) => seq![1u8] + enc_usize(k),
        ChallengeType::Box(k) => seq![2u8] + enc_usize(k),
        ChallengeType::Clue => seq![3u8],
    }
}

pub open spec fn dec_challenge(b: Seq<u8>, pos: int) -> Option<(ChallengeType, int)> {
    match dec_u8(b, pos) {
        Option::None => Option::None,
        Option::Some((t, p1)) => if t == 3 {
            Option::Some((ChallengeType::Clue, p1))
        } else if t <= 2 {
            match dec_usize(b, p1) {
                Option::None => Option::None,
                Option::Some((k, p2)) => if t == 0 {
                    Option::Some((ChallengeType::Row(k), p2))
                } else if t == 1 {
                    Option::Some((ChallengeType::Col(k), p2))
                } else {
                    Option::Some((ChallengeType::Box(k), p2))
                },
            }
        } else {
            Option::None
        },
    }
}

pub open spec fn enc_line(v: LineRevealV) -> Seq<u8> {
    enc_usize(v.index) + v.values + enc_u64s(v.randomness)
}

pub open spec fn dec_line(b: Seq<u8>, pos: int) -> Option<(LineRevealV, int)> {
    match dec_usize(b, pos) {
        Option::None => Option::None,
        Option::Some((idx, p1)) => match dec_bytes(b, p1, 9) {
            Option::None => Option::None,
            Option::Some((vals, p2)) => match dec_u64s(b, p2, 9) {
                Option::None => Option::None,
                Option::Some((rnd, p3)) => Option::Some(
                    (LineRevealV { index: idx, values: vals, randomness: rnd }, p3),
                ),
            },
        },
    }
}

pub open spec fn enc_box(v: BoxRevealV) -> Seq<u8> {
    enc_usize(v.index) + flat_u8(v.values, 3, 3) + enc_u64s(flat_u64(v.randomness, 3, 3))
}

pub open spec fn dec_box(b: Seq<u8>, pos: int) -> Option<(BoxRevealV, int)> {
    match dec_usize(b, pos) {
        Option::None => Option::None,
        Option::Some((idx, p1)) => match dec_bytes(b, p1, 9) {
            Option::None => Option::None,
            Option::Some((vals, p2)) => match dec_u64s(b, p2, 9) {
                Option::None => Option::None,
                Option::Some((rnd, p3)) => Option::Some(
                    (
                        BoxRevealV {
                            index: idx,
                            values: unflat_u8(vals, 3, 3),
                            randomness: unflat_u64(rnd, 3, 3),
                        },
                        p3,
                    ),
                ),
            },
        },
    }
}

pub open spec fn enc_clue(c: ClueRevealV) -> Seq<u8> {
    enc_usize(c.row) + enc_usize(c.col) + seq![c.mapped_value] + be64(c.randomness)
}

pub open spec fn dec_clue(b: Seq<u8>, pos: int) -> Option<(ClueRevealV, int)> {
    match dec_usize(b, pos) {
        Option::None => Option::None,
        Option::Some((row, p1)) => match dec_usize(b, p1) {
            Option::None => Option::None,
            Option::Some((col, p2)) => match dec_u8(b, p2) {
                Option::None => Option::None,
                Option::Some((mv, p3)) => match dec_u64(b, p3) {
                    Option::None => Option::None,
                    Option::Some((rnd, p4)) => Option::Some(
                        (ClueRevealV { row, col, mapped_value: mv, randomness: rnd }, p4),
                    ),
                },
            },
        },
    }
}

pub open spec fn enc_clues(cs: Seq<ClueRevealV>) -> Seq<u8>
    decreases cs.len(),
{
    if cs.len() == 0 {
        Seq::empty()
    } else {
        enc_clue(cs.first()) + enc_clues(cs.drop_first())
    }
}

pub open spec fn dec_clues(b: Seq<u8>, pos: int, n: int) -> Option<(Seq<ClueRevealV>, int)>
    decreases n,
{
    if n <= 0 {
        Option::Some((Seq::empty(), pos))
    } else {
        match dec_clue(b, pos) {
            Option::None => Option::None,
            Option::Some((c, p)) => match dec_clues(b, p, n - 1) {
                Option::None => Option::None,
                Option::Some((cs, p2)) => Option::Some((seq![c] + cs, p2)),
            },
        }
    }
}

pub open spec fn enc_clue_response(v: ClueResponseV) -> Seq<u8> {
    v.mapping + enc_u64s(v.mapping_randomness) + be64(v.clues.len() as u64) + enc_clues(v.clues)
}

pub open spec fn dec_clue_response(b: Seq<u8>, pos: int) -> Option<(ClueResponseV, int)> {
    match dec_bytes(b, pos, 10) {
        Option::None => Option::None,
        Option::Some((mapping, p1)) => match dec_u64s(b, p1, 10) {
            Option::None => Option::None,
            Option::Some((mrnd, p2)) => match dec_usize(b, p2) {
                Option::None => Option::None,
                Option::Some((n, p3)) => match dec_clues(b, p3, n as int) {
                    Option::None => Option::None,
                    Option::Some((cs, p4)) => Option::Some(
                        (ClueResponseV { mapping, mapping_randomness: mrnd, clues: cs }, p4),
                    ),
                },
            },
        },
    }
}

pub open spec fn enc_payload(v: RevealPayloadV) -> Seq<u8> {
    match v {
        RevealPayloadV::Row(l) => seq![0u8] + enc_line(l),
        RevealPayloadV::Col(l) => seq![1u8] + enc_line(l),
        RevealPayloadV::Box(x) => seq![2u8] + enc_box(x),
        RevealPayloadV::Clue(c) => seq![3u8] + enc_clue_response(c),
    }
}

pub open spec fn dec_payload(b: Seq<u8>, pos: int) -> Option<(RevealPayloadV, int)> {
    match dec_u8(b, pos) {
        Option::None => Option::None,
        Option::Some((t, p1)) => if t == 0 {
            match dec_line(b, p1) {
                Option::None => Option::None,
                Option::Some((l, p2)) => Option::Some((RevealPayloadV::Row(l), p2)),
            }
        } else if t == 1 {
            match dec_line(b, p1) {
                Option::None => Option::None,
                Option::Some((l, p2)) => Option::Some((RevealPayloadV::Col(l), p2)),
            }
        } else if t == 2 {
            match dec_box(b, p1) {
                Option::None => Option::None,
                Option::Some((x, p2)) => Option::Some((RevealPayloadV::Box(x), p2)),
            }
        } else if t == 3 {
            match dec_clue_response(b, p1) {
                Option::None => Option::None,
                Option::Some((c, p2)) => Option::Some((RevealPayloadV::Clue(c), p2)),
            }
        } else {
            Option::None
        },
    }
}

pub open spec fn enc_prover(v: ProverMessageV) -> Seq<u8> {
    match v {
        ProverMessageV::Puzzle(p) => seq![0u8] + flat_u8(p.puzzle, 9, 9) + enc_usize(p.clues),
        ProverMessageV::Commitment(c) => seq![1u8] + enc_usize(c.round) + enc_u64s(
            flat_u64(c.board_commit, 9, 9),
        ) + enc_u64s(c.mapping_commit),
        ProverMessageV::Response(r) => seq![2u8] + enc_usize(r.round) + enc_payload(r.payload),
        ProverMessageV::Abort(s) => seq![3u8] + enc_string(s),
    }
}

pub open spec fn dec_prover(b: Seq<u8>, pos: int) -> Option<(ProverMessageV, int)> {
    match dec_u8(b, pos) {
        Option::None => Option::None,
        Option::Some((t, p1)) => if t == 0 {
            match dec_bytes(b, p1, 81) {
                Option::None => Option::None,
                Option::Some((g, p2)) => match dec_usize(b, p2) {
                    Option::None => Option::None,
                    Option::Some((clues, p3)) => Option::Some(
                        (
                            ProverMessageV::Puzzle(
                                PuzzleV { puzzle: unflat_u8(g, 9, 9), clues },
                            ),
                            p3,
                        ),
                    ),
                },
            }
        } else if t == 1 {
            match dec_usize(b, p1) {
                Option::None => Option::None,
                Option::Some((round, p2)) => match dec_u64s(b, p2, 81) {
                    Option::None => Option::None,
                    Option::Some((board, p3)) => match dec_u64s(b, p3, 10) {
                        Option::None => Option::None,
                        Option::Some((mc, p4)) => Option::Some(
                            (
                                ProverMessageV::Commitment(
                                    CommitmentV {
                                        round,
                                        board_commit: unflat_u64(board, 9, 9),
                                        mapping_commit: mc,
                                    },
                                ),
                                p4,
                            ),
                        ),
                    },
                },
            }
        } else if t == 2 {
            match dec_usize(b, p1) {
                Option::None => Option::None,
                Option::Some((round, p2)) => match dec_payload(b, p2) {
                    Option::None => Option::None,
                    Option::Some((pl, p3)) => Option::Some(
                        (ProverMessageV::Response(ResponseV { round, payload: pl }), p3),
                    ),
                },
            }
        } else if t == 3 {
            match dec_string(b, p1) {
                Option::None => Option::None,
                Option::Some((s, p2)) => Option::Some((ProverMessageV::Abort(s), p2)),
            }
        } else {
            Option::None
        },
    }
}

pub open spec fn enc_verifier(v: VerifierMessageV) -> Seq<u8> {
    match v {
        VerifierMessageV::PuzzleAck { rounds } => seq![0u8] + enc_usize(rounds),
        VerifierMessageV::Challenge { round, challenge } => seq![1u8] + enc_usize(round)
            + enc_challenge(challenge),
        VerifierMessageV::RoundResult { round, accepted, reason } => seq![2u8] + enc_usize(round)
            + enc_bool(accepted) + enc_opt_string(reason),
        VerifierMessageV::FinalResult { accepted } => seq![3u8] + enc_bool(accepted),
        VerifierMessageV::Abort(s) => seq![4u8] + enc_string(s),
    }
}

pub open spec fn dec_verifier(b: Seq<u8>, pos: int) -> Option<(VerifierMessageV, int)> {
    match dec_u8(b, pos) {
        Option::None => Option::None,
        Option::Some((t, p1)) => if t == 0 {
            match dec_usize(b, p1) {
                Option::None => Option::None,
                Option::Some((rounds, p2)) => Option::Some(
                    (VerifierMessageV::PuzzleAck { rounds }, p2),
                ),
            }
        } else if t == 1 {
            match dec_usize(b, p1) {
                Option::None => Option::None,
                Option::Some((round, p2)) => match dec_challenge(b, p2) {
                    Option::None => Option::None,
                    Option::Some((c, p3)) => Option::Some(
                        (VerifierMessageV::Challenge { round, challenge: c }, p3),
                    ),
                },
            }
        } else if t == 2 {
            match dec_usize(b, p1) {
                Option::None => Option::None,
                Option::Some((round, p2)) => match dec_bool(b, p2) {
                    Option::None => Option::None,
                    Option::Some((acc, p3)) => match dec_opt_string(b, p3) {
                        Option::None => Option::None,
                        Option::Some((reason, p4)) => Option::Some(
                            (
                                VerifierMessageV::RoundResult {
                                    round,
                                    accepted: acc,
                                    reason,
                                },
                                p4,
                            ),
                        ),
                    },
                },
            }
        } else if t == 3 {
            match dec_bool(b, p1) {
                Option::None => Option::None,
                Option::Some((acc, p2)) => Option::Some(
                    (VerifierMessageV::FinalResult { accepted: acc }, p2),
                ),
            }
        } else if t == 4 {
            match dec_string(b, p1) {
                Option::None => Option::None,
                Option::Some((s, p2)) => Option::Some((VerifierMessageV::Abort(s), p2)),
            }
        } else {
            Option::None
        },
    }
}

// ---------------------------------------------------------------------
// round trip: decoding an encoding, wherever it sits in a buffer, yields
// the encoded message and stops right after it
// ---------------------------------------------------------------------

/// A window into a buffer equal to an encoding makes every sub-window equal
/// to the encoding's corresponding slice.
pub proof fn lemma_subrange_at(b: Seq<u8>, pos: int, e: Seq<u8>, x: int, y: int)
    requires
        0 <= pos,
        pos + e.len() <= b.len(),
        b.subrange(pos, pos + e.len()) == e,
        0 <= x <= y <= e.len(),
    ensures
        b.subrange(pos + x, pos + y) =~= e.subrange(x, y),
{
    assert forall|j: int| 0 <= j < y - x implies b.subrange(pos + x, pos + y)[j] == e.subrange(
        x,
        y,
    )[j] by {
        assert(b[pos + x + j] == b.subrange(pos, pos + e.len())[x + j]);
    }
}

pub proof fn lemma_dec_usize_at(b: Seq<u8>, pos: int, x: usize)
    requires
        0 <= pos,
        pos + 8 <= b.len(),
        b.subrange(pos, pos + 8) == enc_usize(x),
    ensures
        dec_usize(b, pos) == Option::Some((x, pos + 8)),
{
    lemma_dec_u64_at(b, pos, x as u64);
}

pub proof fn lemma_dec_bool_at(b: Seq<u8>, pos: int, x: bool)
    requires
        0 <= pos,
        pos + 1 <= b.len(),
        b.subrange(pos, pos + 1) == enc_bool(x),
    ensures
        dec_bool(b, pos) == Option::Some((x, pos + 1)),
{
    assert(b[pos] == enc_bool(x)[0]);
}

pub proof fn lemma_dec_string_at(b: Seq<u8>, pos: int, s: Seq<char>)
    requires
        0 <= pos,
        str_encodable(s),
        pos + enc_string(s).len() <= b.len(),
        b.subrange(pos, pos + enc_string(s).len()) == enc_string(s),
    ensures
        dec_string(b, pos) == Option::Some((s, pos + enc_string(s).len())),
{
    let e = enc_string(s);
    let u = vstd::utf8::encode_utf8(s);
    let n = u.len() as int;
    lemma_subrange_at(b, pos, e, 0, 8);
    assert(e.subrange(0, 8) =~= be64(u.len() as u64));
    lemma_dec_u64_at(b, pos, u.len() as u64);
    lemma_subrange_at(b, pos, e, 8, 8 + n);
    assert(e.subrange(8, 8 + n) =~= u);
    assert(b.subrange(pos + 8, pos + 8 + n) == u);
    vstd::utf8::encode_utf8_valid_utf8(s);
    vstd::utf8::encode_utf8_decode_utf8(s);
}

pub proof fn lemma_dec_opt_string_at(b: Seq<u8>, pos: int, s: Option<Seq<char>>)
    requires
        0 <= pos,
        match s {
            Option::Some(t) => str_encodable(t),
            Option::None => true,
        },
        pos + enc_opt_string(s).len() <= b.len(),
        b.subrange(pos, pos + enc_opt_string(s).len()) == enc_opt_string(s),
    ensures
        dec_opt_string(b, pos) == Option::Some((s, pos + enc_opt_string(s).len())),
{
    let e = enc_opt_string(s);
    assert(b[pos] == e[0]);
    match s {
        Option::None => {
        },
        Option::Some(t) => {
            lemma_subrange_at(b, pos, e, 1, e.len() as int);
            assert(e.subrange(1, e.len() as int) =~= enc_string(t));
            lemma_dec_string_at(b, pos + 1, t);
        },
    }
}

pub proof fn lemma_dec_challenge_at(b: Seq<u8>, pos: int, c: ChallengeType)
    requires
        0 <= pos,
        pos + enc_challenge(c).len() <= b.len(),
        b.subrange(pos, pos + enc_challenge(c).len()) == enc_challenge(c),
    ensures
        dec_challenge(b, pos) == Option::Some((c, pos + enc_challenge(c).len())),
{
    let e = enc_challenge(c);
    assert(b[pos] == e[0]);
    match c {
        ChallengeType::Row(k) => {
            lemma_subrange_at(b, pos, e, 1, 9);
            assert(e.subrange(1, 9) =~= enc_usize(k));
            lemma_dec_usize_at(b, pos + 1, k);
        },
        ChallengeType::Col(k) => {
            lemma_subrange_at(b, pos, e, 1, 9);
            assert(e.subrange(1, 9) =~= enc_usize(k));
            lemma_dec_usize_at(b, pos + 1, k);
        },
        ChallengeType::Box(k) => {
            lemma_subrange_at(b, pos, e, 1, 9);
            assert(e.subrange(1, 9) =~= enc_usize(k));
            lemma_dec_usize_at(b, pos + 1, k);
        },
        ChallengeType::Clue => {
        },
    }
}

pub proof fn lemma_dec_line_at(b: Seq<u8>, pos: int, v: LineRevealV)
    requires
        0 <= pos,
        line_v_wf(v),
        pos + enc_line(v).len() <= b.len(),
        b.subrange(pos, pos + enc_line(v).len()) == enc_line(v),
    ensures
        dec_line(b, pos) == Option::Some((v, pos + enc_line(v).len())),
{
    let e = enc_line(v);
    assert(e.len() == 8 + 9 + 72);
    lemma_subrange_at(b, pos, e, 0, 8);
    assert(e.subrange(0, 8) =~= enc_usize(v.index));
    lemma_dec_usize_at(b, pos, v.index);
    lemma_subrange_at(b, pos, e, 8, 17);
    assert(e.subrange(8, 17) =~= v.values);
    lemma_subrange_at(b, pos, e, 17, 89);
    assert(e.subrange(17, 89) =~= enc_u64s(v.randomness));
    lemma_dec_u64s_at(b, pos + 17, v.randomness);
    assert(dec_bytes(b, pos + 8, 9) == Option::Some((v.values, pos + 17)));
}

pub proof fn lemma_dec_box_at(b: Seq<u8>, pos: int, v: BoxRevealV)
    requires
        0 <= pos,
        box_v_wf(v),
        pos + enc_box(v).len() <= b.len(),
        b.subrange(pos, pos + enc_box(v).len()) == enc_box(v),
    ensures
        dec_box(b, pos) == Option::Some((v, pos + enc_box(v).len())),
{
    let e = enc_box(v);
    assert(e.len() == 8 + 9 + 72);
    lemma_subrange_at(b, pos, e, 0, 8);
    assert(e.subrange(0, 8) =~= enc_usize(v.index));
    lemma_dec_usize_at(b, pos, v.index);
    lemma_subrange_at(b, pos, e, 8, 17);
    assert(e.subrange(8, 17) =~= flat_u8(v.values, 3, 3));
    lemma_subrange_at(b, pos, e, 17, 89);
    assert(e.subrange(17, 89) =~= enc_u64s(flat_u64(v.randomness, 3, 3)));
    lemma_dec_u64s_at(b, pos + 17, flat_u64(v.randomness, 3, 3));
    assert(dec_bytes(b, pos + 8, 9) == Option::Some((flat_u8(v.values, 3, 3), pos + 17)));
    lemma_unflat_flat_u8(v.values, 3, 3);
    lemma_unflat_flat_u64(v.randomness, 3, 3);
}

pub proof fn lemma_dec_clue_at(b: Seq<u8>, pos: int, c: ClueRevealV)
    requires
        0 <= pos,
        pos + 25 <= b.len(),
        b.subrange(pos, pos + 25) == enc_clue(c),
    ensures
        dec_clue(b, pos) == Option::Some((c, pos + 25)),
{
    let e = enc_clue(c);
    assert(e.len() == 25);
    lemma_subrange_at(b, pos, e, 0, 8);
    assert(e.subrange(0, 8) =~= enc_usize(c.row));
    lemma_dec_usize_at(b, pos, c.row);
    lemma_subrange_at(b, pos, e, 8, 16);
    assert(e.subrange(8, 16) =~= enc_usize(c.col));
    lemma_dec_usize_at(b, pos + 8, c.col);
    assert(b[pos + 16] == e[16]);
    assert(e[16] == c.mapped_value);
    lemma_subrange_at(b, pos, e, 17, 25);
    assert(e.subrange(17, 25) =~= be64(c.randomness));
    lemma_dec_u64_at(b, pos + 17, c.randomness);
}

/// The encoding of a clue list is 25 bytes per entry.
pub proof fn lemma_enc_clues_len(cs: Seq<ClueRevealV>)
    ensures
        enc_clues(cs).len() == 25 * cs.len(),
    decreases cs.len(),
{
    if cs.len() > 0 {
        lemma_enc_clues_len(cs.drop_first());
    }
}

pub proof fn lemma_dec_clues_at(b: Seq<u8>, pos: int, cs: Seq<ClueRevealV>)
    requires
        0 <= pos,
        pos + enc_clues(cs).len() <= b.len(),
        b.subrange(pos, pos + enc_clues(cs).len()) == enc_clues(cs),
    ensures
        dec_clues(b, pos, cs.len() as int) == Option::Some((cs, pos + enc_clues(cs).len())),
    decreases cs.len(),
{
    let e = enc_clues(cs);
    if cs.len() == 0 {
        assert(Seq::<ClueRevealV>::empty() =~= cs);
    } else {
        lemma_enc_clues_len(cs);
        lemma_enc_clues_len(cs.drop_first());
        lemma_subrange_at(b, pos, e, 0, 25);
        assert(e.subrange(0, 25) =~= enc_clue(cs.first()));
        lemma_dec_clue_at(b, pos, cs.first());
        lemma_subrange_at(b, pos, e, 25, e.len() as int);
        assert(e.subrange(25, e.len() as int) =~= enc_clues(cs.drop_first()));
        lemma_dec_clues_at(b, pos + 25, cs.drop_first());
        assert(seq![cs.first()] + cs.drop_first() =~= cs);
    }
}

pub proof fn lemma_dec_clue_response_at(b: Seq<u8>, pos: int, v: ClueResponseV)
    requires
        0 <= pos,
        clue_response_v_wf(v),
        pos + enc_clue_response(v).len() <= b.len(),
        b.subrange(pos, pos + enc_clue_response(v).len()) == enc_clue_response(v),
    ensures
        dec_clue_response(b, pos) == Option::Some((v, pos + enc_clue_response(v).len())),
{
    let e = enc_clue_response(v);
    lemma_enc_clues_len(v.clues);
    let cl = enc_clues(v.clues).len() as int;
    assert(e.len() == 10 + 80 + 8 + cl);
    lemma_subrange_at(b, pos, e, 0, 10);
    assert(e.subrange(0, 10) =~= v.mapping);
    assert(dec_bytes(b, pos, 10) == Option::Some((v.mapping, pos + 10)));
    lemma_subrange_at(b, pos, e, 10, 90);
    assert(e.subrange(10, 90) =~= enc_u64s(v.mapping_randomness));
    lemma_dec_u64s_at(b, pos + 10, v.mapping_randomness);
    lemma_subrange_at(b, pos, e, 90, 98);
    assert(e.subrange(90, 98) =~= be64(v.clues.len() as u64));
    lemma_dec_u64_at(b, pos + 90, v.clues.len() as u64);
    lemma_subrange_at(b, pos, e, 98, e.len() as int);
    assert(e.subrange(98, e.len() as int) =~= enc_clues(v.clues));
    lemma_dec_clues_at(b, pos + 98, v.clues);
}

pub proof fn lemma_dec_payload_at(b: Seq<u8>, pos: int, v: RevealPayloadV)
    requires
        0 <= pos,
        payload_v_wf(v),
        pos + enc_payload(v).len() <= b.len(),
        b.subrange(pos, pos + enc_payload(v).len()) == enc_payload(v),
    ensures
        dec_payload(b, pos) == Option::Some((v, pos + enc_payload(v).len())),
{
    let e = enc_payload(v);
    assert(b[pos] == e[0]);
    match v {
        RevealPayloadV::Row(l) => {
            lemma_subrange_at(b, pos, e, 1, e.len() as int);
            assert(e.subrange(1, e.len() as int) =~= enc_line(l));
            lemma_dec_line_at(b, pos + 1, l);
        },
        RevealPayloadV::Col(l) => {
            lemma_subrange_at(b, pos, e, 1, e.len() as int);
            assert(e.subrange(1, e.len() as int) =~= enc_line(l));
            lemma_dec_line_at(b, pos + 1, l);
        },
        RevealPayloadV::Box(x) => {
            lemma_subrange_at(b, pos, e, 1, e.len() as int);
            assert(e.subrange(1, e.len() as int) =~= enc_box(x));
            lemma_dec_box_at(b, pos + 1, x);
        },
        RevealPayloadV::Clue(c) => {
            lemma_subrange_at(b, pos, e, 1, e.len() as int);
            assert(e.subrange(1, e.len() as int) =~= enc_clue_response(c));
            lemma_dec_clue_response_at(b, pos + 1, c);
        },
    }
}

#[verifier::rlimit(50)]
pub proof fn lemma_dec_prover_at(b: Seq<u8>, pos: int, v: ProverMessageV)
    requires
        0 <= pos,
        prover_v_wf(v),
        pos + enc_prover(v).len() <= b.len(),
        b.subrange(pos, pos + enc_prover(v).len()) == enc_prover(v),
    ensures
        dec_prover(b, pos) == Option::Some((v, pos + enc_prover(v).len())),
{
    let e = enc_prover(v);
    assert(b[pos] == e[0]);
    match v {
        ProverMessageV::Puzzle(p) => {
            lemma_subrange_at(b, pos, e, 1, 82);
            assert(e.subrange(1, 82) =~= flat_u8(p.puzzle, 9, 9));
            assert(dec_bytes(b, pos + 1, 81) == Option::Some(
                (flat_u8(p.puzzle, 9, 9), pos + 82),
            ));
            lemma_subrange_at(b, pos, e, 82, 90);
            assert(e.subrange(82, 90) =~= enc_usize(p.clues));
            lemma_dec_usize_at(b, pos + 82, p.clues);
            lemma_unflat_flat_u8(p.puzzle, 9, 9);
        },
        ProverMessageV::Commitment(c) => {
            lemma_subrange_at(b, pos, e, 1, 9);
            assert(e.subrange(1, 9) =~= enc_usize(c.round));
            lemma_dec_usize_at(b, pos + 1, c.round);
            lemma_subrange_at(b, pos, e, 9, 657);
            assert(e.subrange(9, 657) =~= enc_u64s(flat_u64(c.board_commit, 9, 9)));
            lemma_dec_u64s_at(b, pos + 9, flat_u64(c.board_commit, 9, 9));
            lemma_subrange_at(b, pos, e, 657, 737);
            assert(e.subrange(657, 737) =~= enc_u64s(c.mapping_commit));
            lemma_dec_u64s_at(b, pos + 657, c.mapping_commit);
            lemma_unflat_flat_u64(c.board_commit, 9, 9);
        },
        ProverMessageV::Response(r) => {
            lemma_subrange_at(b, pos, e, 1, 9);
            assert(e.subrange(1, 9) =~= enc_usize(r.round));
            lemma_dec_usize_at(b, pos + 1, r.round);
            lemma_subrange_at(b, pos, e, 9, e.len() as int);
            assert(e.subrange(9, e.len() as int) =~= enc_payload(r.payload));
            lemma_dec_payload_at(b, pos + 9, r.payload);
        },
        ProverMessageV::Abort(s) => {
            lemma_subrange_at(b, pos, e, 1, e.len() as int);
            assert(e.subrange(1, e.len() as int) =~= enc_string(s));
            lemma_dec_string_at(b, pos + 1, s);
        },
    }
}

pub proof fn lemma_dec_verifier_at(b: Seq<u8>, pos: int, v: VerifierMessageV)
    requires
        0 <= pos,
        verifier_v_wf(v),
        pos + enc_verifier(v).len() <= b.len(),
        b.subrange(pos, pos + enc_verifier(v).len()) == enc_verifier(v),
    ensures
        dec_verifier(b, pos) == Option::Some((v, pos + enc_verifier(v).len())),
{
    let e = enc_verifier(v);
    assert(b[pos] == e[0]);
    match v {
        VerifierMessageV::PuzzleAck { rounds } => {
            lemma_subrange_at(b, pos, e, 1, 9);
            assert(e.subrange(1, 9) =~= enc_usize(rounds));
            lemma_dec_usize_at(b, pos + 1, rounds);
        },
        VerifierMessageV::Challenge { round, challenge } => {
            lemma_subrange_at(b, pos, e, 1, 9);
            assert(e.subrange(1, 9) =~= enc_usize(round));
            lemma_dec_usize_at(b, pos + 1, round);
            lemma_subrange_at(b, pos, e, 9, e.len() as int);
            assert(e.subrange(9, e.len() as int) =~= enc_challenge(challenge));
            lemma_dec_challenge_at(b, pos + 9, challenge);
        },
        VerifierMessageV::RoundResult { round, accepted, reason } => {
            lemma_subrange_at(b, pos, e, 1, 9);
            assert(e.subrange(1, 9) =~= enc_usize(round));
            lemma_dec_usize_at(b, pos + 1, round);
            lemma_subrange_at(b, pos, e, 9, 10);
            assert(e.subrange(9, 10) =~= enc_bool(accepted));
            lemma_dec_bool_at(b, pos + 9, accepted);
            lemma_subrange_at(b, pos, e, 10, e.len() as int);
            assert(e.subrange(10, e.len() as int) =~= enc_opt_string(reason));
            lemma_dec_opt_string_at(b, pos + 10, reason);
        },
        VerifierMessageV::FinalResult { accepted } => {
            lemma_subrange_at(b, pos, e, 1, 2);
            assert(e.subrange(1, 2) =~= enc_bool(accepted));
            lemma_dec_bool_at(b, pos + 1, accepted);
        },
        VerifierMessageV::Abort(s) => {
            lemma_subrange_at(b, pos, e, 1, e.len() as int);
            assert(e.subrange(1, e.len() as int) =~= enc_string(s));
            lemma_dec_string_at(b, pos + 1, s);
        },
    }
}

/// Framing round trip for the prover's messages: decoding an encoded message
/// yields the message back, consuming exactly its bytes.
pub proof fn lemma_prover_roundtrip(v: ProverMessageV)
    requires
        prover_v_wf(v),
    ensures
        dec_prover(enc_prover(v), 0) == Option::Some((v, enc_prover(v).len() as int)),
{
    let e = enc_prover(v);
    assert(e.subrange(0, e.len() as int) =~= e);
    lemma_dec_prover_at(e, 0, v);
}

/// Framing round trip for the verifier's messages.
pub proof fn lemma_verifier_roundtrip(v: VerifierMessageV)
    requires
        verifier_v_wf(v),
    ensures
        dec_verifier(enc_verifier(v), 0) == Option::Some((v, enc_verifier(v).len() as int)),
{
    let e = enc_verifier(v);
    assert(e.subrange(0, e.len() as int) =~= e);
    lemma_dec_verifier_at(e, 0, v);
}

// ---------------------------------------------------------------------
// framing: a 4-byte big-endian length prefix
// ---------------------------------------------------------------------

/// Big-endian bytes of a 32-bit integer.
pub open spec fn be32(x: u32) -> Seq<u8> {
    seq![
        ((x >> 24) & 0xff) as u8,
        ((x >> 16) & 0xff) as u8,
        ((x >> 8) & 0xff) as u8,
        (x & 0xff) as u8,
    ]
}

/// The 32-bit integer read from four big-endian bytes.
pub open spec fn be32_value(s: Seq<u8>) -> u32
    recommends
        s.len() == 4,
{
    (((s[0] as u32) << 24) | ((s[1] as u32) << 16) | ((s[2] as u32) << 8) | (s[3] as u32)) as u32
}

/// Reading back the big-endian bytes of a 32-bit integer yields it.
pub proof fn lemma_be32_roundtrip(x: u32)
    ensures
        be32_value(be32(x)) == x,
{
    assert(((((((x >> 24) & 0xff) as u8) as u32) << 24) | (((((x >> 16) & 0xff) as u8) as u32)
        << 16) | (((((x >> 8) & 0xff) as u8) as u32) << 8) | (((x & 0xff) as u8) as u32)) == x)
        by (bit_vector);
}

/// Prefix a payload with its 4-byte big-endian length; `None` when it is too
/// long for the frame header.
pub fn frame_message(payload: &Vec<u8>) -> (r: Option<Vec<u8>>)
    ensures
        match r {
            Option::Some(f) => payload@.len() <= u32::MAX && f@ == be32(
                payload@.len() as u32,
            ) + payload@,
            Option::None => payload@.len() > u32::MAX,
        },
{
    if payload.len() > 0xffff_ffffusize {
        return Option::None;
    }
    let n: u32 = payload.len() as u32;
    let mut out: Vec<u8> = Vec::new();
    out.push(((n >> 24) & 0xff) as u8);
    out.push(((n >> 16) & 0xff) as u8);
    out.push(((n >> 8) & 0xff) as u8);
    out.push((n & 0xff) as u8);
    let mut i: usize = 0;
    while i < payload.len()
        invariant
            i <= payload@.len(),
            out@ == be32(payload@.len() as u32) + payload@.subrange(0, i as int),
        decreases payload@.len() - i,
    {
        out.push(payload[i]);
        assert(out@ =~= be32(payload@.len() as u32) + payload@.subrange(0, i as int + 1));
        i = i + 1;
    }
    assert(out@ =~= be32(payload@.len() as u32) + payload@);
    Option::Some(out)
}

/// Read the length out of a 4-byte frame header.
pub fn frame_length(header: &[u8]) -> (n: u32)
    requires
        header@.len() >= 4,
    ensures
        n == be32_value(header@.subrange(0, 4)),
{
    let n: u32 = ((header[0] as u32) << 24) | ((header[1] as u32) << 16) | ((header[2] as u32)
        << 8) | (header[3] as u32);
    proof {
        let s = header@.subrange(0, 4);
        assert(s[0] == header@[0] && s[1] == header@[1] && s[2] == header@[2] && s[3]
            == header@[3]);
    }
    n
}

// ---------------------------------------------------------------------
// executable encoders
// ---------------------------------------------------------------------

/// Append raw bytes.
pub fn push_bytes(out: &mut Vec<u8>, v: &Vec<u8>)
    ensures
        final(out)@ == old(out)@ + v@,
{
    let mut i: usize = 0;
    while i < v.len()
        invariant
            i <= v@.len(),
            out@ == old(out)@ + v@.subrange(0, i as int),
        decreases v@.len() - i,
    {
        out.push(v[i]);
        assert(out@ =~= old(out)@ + v@.subrange(0, i as int + 1));
        i = i + 1;
    }
    assert(out@ =~= old(out)@ + v@);
}

/// Flatten a grid of bytes row by row.
pub fn flatten_u8(m: &Vec<Vec<u8>>, rows: usize, cols: usize) -> (r: Vec<u8>)
    requires
        0 < cols,
        rows * cols <= usize::MAX,
        grid_u8_wf(m.deep_view(), rows as int, cols as int),
    ensures
        r@ == flat_u8(m.deep_view(), rows as int, cols as int),
{
    let ghost g = m.deep_view();
    let mut out: Vec<u8> = Vec::new();
    let mut i: usize = 0;
    while i < rows
        invariant
            i <= rows,
            0 < cols,
            rows * cols <= usize::MAX,
            g == m.deep_view(),
            grid_u8_wf(g, rows as int, cols as int),
            out@.len() == i * cols,
            forall|j: int| 0 <= j < i * cols ==> out@[j] == g[j / (cols as int)][j % (cols as int)],
        decreases rows - i,
    {
        proof {
            crate::sudoku::lemma_deep_dims_u8(*m);
            assert((i + 1) * cols <= rows * cols) by (nonlinear_arith)
                requires
                    i < rows,
                    0 < cols,
            ;
            assert(i * cols + cols == (i + 1) * cols) by (nonlinear_arith);
        }
        let mut c: usize = 0;
        while c < cols
            invariant
                i < rows,
                c <= cols,
                0 < cols,
                i * cols + cols <= usize::MAX,
                g == m.deep_view(),
                grid_u8_wf(g, rows as int, cols as int),
                m@.len() == rows,
                m@[i as int]@.len() == cols,
                m@[i as int]@ == g[i as int],
                out@.len() == i * cols + c,
                forall|j: int|
                    0 <= j < i * cols + c ==> out@[j] == g[j / (cols as int)][j % (cols as int)],
            decreases cols - c,
        {
            out.push(m[i][c]);
            proof {
                lemma_fundamental_div_mod_converse(
                    (i * cols + c) as int,
                    cols as int,
                    i as int,
                    c as int,
                );
            }
            c = c + 1;
        }
        i = i + 1;
    }
    proof {
        assert(out@ =~= flat_u8(g, rows as int, cols as int));
    }
    out
}

/// Flatten a grid of 64-bit values row by row.
pub fn flatten_u64(m: &Vec<Vec<u64>>, rows: usize, cols: usize) -> (r: Vec<u64>)
    requires
        0 < cols,
        rows * cols <= usize::MAX,
        grid_u64_wf(m.deep_view(), rows as int, cols as int),
    ensures
        r@ == flat_u64(m.deep_view(), rows as int, cols as int),
{
    let ghost g = m.deep_view();
    let mut out: Vec<u64> = Vec::new();
    let mut i: usize = 0;
    while i < rows
        invariant
            i <= rows,
            0 < cols,
            rows * cols <= usize::MAX,
            g == m.deep_view(),
            grid_u64_wf(g, rows as int, cols as int),
            out@.len() == i * cols,
            forall|j: int| 0 <= j < i * cols ==> out@[j] == g[j / (cols as int)][j % (cols as int)],
        decreases rows - i,
    {
        proof {
            crate::sudoku::lemma_deep_dims_u64(*m);
            assert((i + 1) * cols <= rows * cols) by (nonlinear_arith)
                requires
                    i < rows,
                    0 < cols,
            ;
            assert(i * cols + cols == (i + 1) * cols) by (nonlinear_arith);
        }
        let mut c: usize = 0;
        while c < cols
            invariant
                i < rows,
                c <= cols,
                0 < cols,
                i * cols + cols <= usize::MAX,
                g == m.deep_view(),
                grid_u64_wf(g, rows as int, cols as int),
                m@.len() == rows,
                m@[i as int]@.len() == cols,
                m@[i as int]@ == g[i as int],
                out@.len() == i * cols + c,
                forall|j: int|
                    0 <= j < i * cols + c ==> out@[j] == g[j / (cols as int)][j % (cols as int)],
            decreases cols - c,
        {
            out.push(m[i][c]);
            proof {
                lemma_fundamental_div_mod_converse(
                    (i * cols + c) as int,
                    cols as int,
                    i as int,
                    c as int,
                );
            }
            c = c + 1;
        }
        i = i + 1;
    }
    proof {
        assert(out@ =~= flat_u64(g, rows as int, cols as int));
    }
    out
}

/// Relies on std's `String::from_utf8`: succeeds exactly on valid UTF-8, and
/// the returned string's byte encoding is the input.
#[verifier::external_body]
fn bytes_to_string(v: Vec<u8>) -> (r: Option<String>)
    ensures
        match r {
            Option::Some(s) => valid_utf8(v@) && s@ == decode_utf8(v@),
            Option::None => !valid_utf8(v@),
        },
{
    match String::from_utf8(v) {
        Result::Ok(s) => Option::Some(s),
        Result::Err(_) => Option::None,
    }
}

/// Appending one entry extends a clue-list encoding at its end.
proof fn lemma_enc_clues_push(cs: Seq<ClueRevealV>, c: ClueRevealV)
    ensures
        enc_clues(cs.push(c)) == enc_clues(cs) + enc_clue(c),
    decreases cs.len(),
{
    if cs.len() == 0 {
        assert(cs.push(c).first() == c);
        assert(cs.push(c).drop_first() =~= Seq::<ClueRevealV>::empty());
        assert(enc_clues(Seq::<ClueRevealV>::empty()) == Seq::<u8>::empty());
        assert(enc_clues(cs.push(c)) =~= enc_clue(c));
        assert(enc_clues(cs) + enc_clue(c) =~= enc_clue(c));
    } else {
        assert(cs.push(c).drop_first() =~= cs.drop_first().push(c));
        lemma_enc_clues_push(cs.drop_first(), c);
        assert(enc_clues(cs.push(c)) =~= enc_clues(cs) + enc_clue(c));
    }
}

fn encode_string(out: &mut Vec<u8>, s: &String)
    ensures
        final(out)@ == old(out)@ + enc_string(s@),
        str_encodable(s@),
{
    let bytes = s.as_str().as_bytes_vec();
    push_be64(out, bytes.len() as u64);
    push_bytes(out, &bytes);
    assert(out@ =~= old(out)@ + enc_string(s@));
}

fn encode_opt_string(out: &mut Vec<u8>, s: &Option<String>)
    ensures
        final(out)@ == old(out)@ + enc_opt_string(match s {
            Option::Some(t) => Option::Some(t@),
            Option::None => Option::None,
        }),
        match s {
            Option::Some(t) => str_encodable(t@),
            Option::None => true,
        },
{
    match s {
        Option::None => {
            out.push(0);
            assert(out@ =~= old(out)@ + enc_opt_string(Option::None));
        },
        Option::Some(t) => {
            out.push(1);
            encode_string(out, t);
            assert(out@ =~= old(out)@ + enc_opt_string(Option::Some(t@)));
        },
    }
}

fn encode_challenge(out: &mut Vec<u8>, c: ChallengeType)
    ensures
        final(out)@ == old(out)@ + enc_challenge(c),
{
    match c {
        ChallengeType::Row(k) => {
            out.push(0);
            push_be64(out, k as u64);
        },
        ChallengeType::Col(k) => {
            out.push(1);
            push_be64(out, k as u64);
        },
        ChallengeType::Box(k) => {
            out.push(2);
            push_be64(out, k as u64);
        },
        ChallengeType::Clue => {
            out.push(3);
        },
    }
    assert(out@ =~= old(out)@ + enc_challenge(c));
}

fn encode_line(out: &mut Vec<u8>, l: &LineReveal)
    requires
        line_v_wf(line_view(*l)),
    ensures
        final(out)@ == old(out)@ + enc_line(line_view(*l)),
{
    push_be64(out, l.index as u64);
    push_bytes(out, &l.values);
    push_u64s(out, &l.randomness);
    assert(out@ =~= old(out)@ + enc_line(line_view(*l)));
}

fn encode_box(out: &mut Vec<u8>, l: &BoxReveal)
    requires
        box_v_wf(box_view(*l)),
    ensures
        final(out)@ == old(out)@ + enc_box(box_view(*l)),
{
    push_be64(out, l.index as u64);
    let flat_vals = flatten_u8(&l.values, 3, 3);
    push_bytes(out, &flat_vals);
    let flat_rnd = flatten_u64(&l.randomness, 3, 3);
    push_u64s(out, &flat_rnd);
    assert(out@ =~= old(out)@ + enc_box(box_view(*l)));
}

fn encode_clue(out: &mut Vec<u8>, c: &ClueReveal)
    ensures
        final(out)@ == old(out)@ + enc_clue(clue_view(*c)),
{
    push_be64(out, c.row as u64);
    push_be64(out, c.col as u64);
    out.push(c.mapped_value);
    push_be64(out, c.randomness);
    assert(out@ =~= old(out)@ + enc_clue(clue_view(*c)));
}

fn encode_clue_response(out: &mut Vec<u8>, c: &ClueResponse)
    requires
        clue_response_v_wf(clue_response_view(*c)),
    ensures
        final(out)@ == old(out)@ + enc_clue_response(clue_response_view(*c)),
{
    let ghost cv = clue_response_view(*c);
    push_bytes(out, &c.mapping);
    push_u64s(out, &c.mapping_randomness);
    push_be64(out, c.clues.len() as u64);
    let ghost mid = out@;
    let mut i: usize = 0;
    while i < c.clues.len()
        invariant
            i <= c.clues@.len(),
            cv == clue_response_view(*c),
            out@ == mid + enc_clues(cv.clues.take(i as int)),
        decreases c.clues@.len() - i,
    {
        encode_clue(out, &c.clues[i]);
        proof {
            lemma_enc_clues_push(cv.clues.take(i as int), cv.clues[i as int]);
            assert(cv.clues.take(i as int).push(cv.clues[i as int]) =~= cv.clues.take(
                i as int + 1,
            ));
            assert(clue_view(c.clues@[i as int]) == cv.clues[i as int]);
            assert(out@ =~= mid + enc_clues(cv.clues.take(i as int + 1)));
        }
        i = i + 1;
    }
    proof {
        assert(cv.clues.take(cv.clues.len() as int) =~= cv.clues);
        assert(out@ =~= old(out)@ + enc_clue_response(cv));
    }
}

fn encode_payload(out: &mut Vec<u8>, p: &RevealPayload)
    requires
        payload_v_wf(payload_view(*p)),
    ensures
        final(out)@ == old(out)@ + enc_payload(payload_view(*p)),
{
    match p {
        RevealPayload::Row(l) => {
            out.push(0);
            encode_line(out, l);
        },
        RevealPayload::Col(l) => {
            out.push(1);
            encode_line(out, l);
        },
        RevealPayload::Box(x) => {
            out.push(2);
            encode_box(out, x);
        },
        RevealPayload::Clue(c) => {
            out.push(3);
            encode_clue_response(out, c);
        },
    }
    assert(out@ =~= old(out)@ + enc_payload(payload_view(*p)));
}

/// True exactly when the byte grid has the given shape.
pub fn grid_u8_shape_ok(m: &Vec<Vec<u8>>, rows: usize, cols: usize) -> (b: bool)
    ensures
        b == grid_u8_wf(m.deep_view(), rows as int, cols as int),
{
    proof {
        crate::sudoku::lemma_deep_dims_u8(*m);
    }
    if m.len() != rows {
        return false;
    }
    let mut i: usize = 0;
    while i < rows
        invariant
            i <= rows,
            m.deep_view().len() == rows,
            forall|j: int| 0 <= j < i ==> (#[trigger] m.deep_view()[j]).len() == cols,
        decreases rows - i,
    {
        proof {
            crate::sudoku::lemma_deep_dims_u8(*m);
        }
        if m[i].len() != cols {
            return false;
        }
        i = i + 1;
    }
    true
}

/// True exactly when the digest grid has the given shape.
pub fn grid_u64_shape_ok(m: &Vec<Vec<u64>>, rows: usize, cols: usize) -> (b: bool)
    ensures
        b == grid_u64_wf(m.deep_view(), rows as int, cols as int),
{
    proof {
        crate::sudoku::lemma_deep_dims_u64(*m);
    }
    if m.len() != rows {
        return false;
    }
    let mut i: usize = 0;
    while i < rows
        invariant
            i <= rows,
            m.deep_view().len() == rows,
            forall|j: int| 0 <= j < i ==> (#[trigger] m.deep_view()[j]).len() == cols,
        decreases rows - i,
    {
        proof {
            crate::sudoku::lemma_deep_dims_u64(*m);
        }
        if m[i].len() != cols {
            return false;
        }
        i = i + 1;
    }
    true
}

/// True exactly when the payload has the wire format's fixed shapes.
pub fn payload_shape_ok(p: &RevealPayload) -> (b: bool)
    ensures
        b == payload_v_wf(payload_view(*p)),
{
    match p {
        RevealPayload::Row(l) => l.values.len() == 9 && l.randomness.len() == 9,
        RevealPayload::Col(l) => l.values.len() == 9 && l.randomness.len() == 9,
        RevealPayload::Box(x) => grid_u8_shape_ok(&x.values, 3, 3) && grid_u64_shape_ok(
            &x.randomness,
            3,
            3,
        ),
        RevealPayload::Clue(c) => {
            let n = c.clues.len();
            proof {
                assert(clue_response_view(*c).clues.len() == c.clues@.len());
            }
            c.mapping.len() == 10 && c.mapping_randomness.len() == 10
        },
    }
}

/// Encode a prover message; `None` exactly when its payload does not have
/// the wire format's fixed shapes.
pub fn encode_prover_message(m: &ProverMessage) -> (r: Option<Vec<u8>>)
    ensures
        match r {
            Option::Some(out) => prover_v_wf(prover_msg_view(*m)) && out@ == enc_prover(
                prover_msg_view(*m),
            ),
            Option::None => !prover_v_wf(prover_msg_view(*m)),
        },
{
    let mut out: Vec<u8> = Vec::new();
    match m {
        ProverMessage::Puzzle(p) => {
            if !grid_u8_shape_ok(&p.puzzle, 9, 9) {
                return Option::None;
            }
            out.push(0);
            let flat = flatten_u8(&p.puzzle, 9, 9);
            push_bytes(&mut out, &flat);
            push_be64(&mut out, p.clues as u64);
        },
        ProverMessage::Commitment(c) => {
            if !grid_u64_shape_ok(&c.board_commit, 9, 9) || c.mapping_commit.len() != 10 {
                return Option::None;
            }
            out.push(1);
            push_be64(&mut out, c.round as u64);
            let flat = flatten_u64(&c.board_commit, 9, 9);
            push_u64s(&mut out, &flat);
            push_u64s(&mut out, &c.mapping_commit);
        },
        ProverMessage::Response(resp) => {
            if !payload_shape_ok(&resp.payload) {
                return Option::None;
            }
            out.push(2);
            push_be64(&mut out, resp.round as u64);
            encode_payload(&mut out, &resp.payload);
        },
        ProverMessage::Abort(s) => {
            out.push(3);
            encode_string(&mut out, s);
        },
    }
    assert(out@ =~= enc_prover(prover_msg_view(*m)));
    Option::Some(out)
}

/// Encode a verifier message; always succeeds.
pub fn encode_verifier_message(m: &VerifierMessage) -> (out: Vec<u8>)
    ensures
        verifier_v_wf(verifier_msg_view(*m)),
        out@ == enc_verifier(verifier_msg_view(*m)),
{
    let mut out: Vec<u8> = Vec::new();
    match m {
        VerifierMessage::PuzzleAck { rounds } => {
            out.push(0);
            push_be64(&mut out, *rounds as u64);
        },
        VerifierMessage::Challenge { round, challenge } => {
            out.push(1);
            push_be64(&mut out, *round as u64);
            encode_challenge(&mut out, *challenge);
        },
        VerifierMessage::RoundResult { round, accepted, reason } => {
            out.push(2);
            push_be64(&mut out, *round as u64);
            if *accepted {
                out.push(1);
            } else {
                out.push(0);
            }
            encode_opt_string(&mut out, reason);
        },
        VerifierMessage::FinalResult { accepted } => {
            out.push(3);
            if *accepted {
                out.push(1);
            } else {
                out.push(0);
            }
        },
        VerifierMessage::Abort(s) => {
            out.push(4);
            encode_string(&mut out, s);
        },
    }
    assert(out@ =~= enc_verifier(verifier_msg_view(*m)));
    out
}

// ---------------------------------------------------------------------
// executable decoders
// ---------------------------------------------------------------------

fn read_u8c(buf: &[u8], pos: usize) -> (r: Option<(u8, usize)>)
    ensures
        match r {
            Option::Some(p) => dec_u8(buf@, pos as int) == Option::Some((p.0, p.1 as int)),
            Option::None => dec_u8(buf@, pos as int) is None,
        },
{
    if pos < buf.len() {
        Option::Some((buf[pos], pos + 1))
    } else {
        Option::None
    }
}

fn read_u64c(buf: &[u8], pos: usize) -> (r: Option<(u64, usize)>)
    ensures
        match r {
            Option::Some(p) => dec_u64(buf@, pos as int) == Option::Some((p.0, p.1 as int)),
            Option::None => dec_u64(buf@, pos as int) is None,
        },
{
    let blen = buf.len();
    if 8 <= blen && pos <= blen - 8 {
        Option::Some((read_be64(buf, pos), pos + 8))
    } else {
        Option::None
    }
}

fn read_usize_c(buf: &[u8], pos: usize) -> (r: Option<(usize, usize)>)
    ensures
        match r {
            Option::Some(p) => dec_usize(buf@, pos as int) == Option::Some((p.0, p.1 as int)),
            Option::None => dec_usize(buf@, pos as int) is None,
        },
{
    match read_u64c(buf, pos) {
        Option::None => Option::None,
        Option::Some((x, p)) => {
            if x <= usize::MAX as u64 {
                Option::Some((x as usize, p))
            } else {
                Option::None
            }
        },
    }
}

fn read_bool_c(buf: &[u8], pos: usize) -> (r: Option<(bool, usize)>)
    ensures
        match r {
            Option::Some(p) => dec_bool(buf@, pos as int) == Option::Some((p.0, p.1 as int)),
            Option::None => dec_bool(buf@, pos as int) is None,
        },
{
    match read_u8c(buf, pos) {
        Option::None => Option::None,
        Option::Some((t, p)) => {
            if t == 0 {
                Option::Some((false, p))
            } else if t == 1 {
                Option::Some((true, p))
            } else {
                Option::None
            }
        },
    }
}

fn read_string(buf: &[u8], pos: usize) -> (r: Option<(String, usize)>)
    ensures
        match r {
            Option::Some(p) => dec_string(buf@, pos as int) == Option::Some((p.0@, p.1 as int)),
            Option::None => dec_string(buf@, pos as int) is None,
        },
{
    match read_u64c(buf, pos) {
        Option::None => Option::None,
        Option::Some((n, p1)) => {
            if n > usize::MAX as u64 {
                return Option::None;
            }
            match read_bytes(buf, p1, n as usize) {
                Option::None => Option::None,
                Option::Some((bytes, p2)) => match bytes_to_string(bytes) {
                    Option::None => Option::None,
                    Option::Some(s) => Option::Some((s, p2)),
                },
            }
        },
    }
}

fn read_opt_string(buf: &[u8], pos: usize) -> (r: Option<(Option<String>, usize)>)
    ensures
        match r {
            Option::Some(p) => dec_opt_string(buf@, pos as int) == Option::Some(
                (
                    match p.0 {
                        Option::Some(s) => Option::Some(s@),
                        Option::None => Option::None,
                    },
                    p.1 as int,
                ),
            ),
            Option::None => dec_opt_string(buf@, pos as int) is None,
        },
{
    match read_u8c(buf, pos) {
        Option::None => Option::None,
        Option::Some((t, p1)) => {
            if t == 0 {
                Option::Some((Option::None, p1))
            } else if t == 1 {
                match read_string(buf, p1) {
                    Option::None => Option::None,
                    Option::Some((s, p2)) => Option::Some((Option::Some(s), p2)),
                }
            } else {
                Option::None
            }
        },
    }
}

fn read_challenge(buf: &[u8], pos: usize) -> (r: Option<(ChallengeType, usize)>)
    ensures
        match r {
            Option::Some(p) => dec_challenge(buf@, pos as int) == Option::Some((p.0, p.1 as int)),
            Option::None => dec_challenge(buf@, pos as int) is None,
        },
{
    match read_u8c(buf, pos) {
        Option::None => Option::None,
        Option::Some((t, p1)) => {
            if t == 3 {
                Option::Some((ChallengeType::Clue, p1))
            } else if t <= 2 {
                match read_usize_c(buf, p1) {
                    Option::None => Option::None,
                    Option::Some((k, p2)) => {
                        if t == 0 {
                            Option::Some((ChallengeType::Row(k), p2))
                        } else if t == 1 {
                            Option::Some((ChallengeType::Col(k), p2))
                        } else {
                            Option::Some((ChallengeType::Box(k), p2))
                        }
                    },
                }
            } else {
                Option::None
            }
        },
    }
}

/// Rebuild a grid of bytes from its row-by-row flattening.
fn unflatten_u8(v: &Vec<u8>, rows: usize, cols: usize) -> (r: Vec<Vec<u8>>)
    requires
        0 < cols,
        rows * cols == v@.len(),
    ensures
        r.deep_view() == unflat_u8(v@, rows as int, cols as int),
{
    let vlen = v.len();
    assert(v@.len() <= usize::MAX);
    let mut out: Vec<Vec<u8>> = Vec::new();
    let mut i: usize = 0;
    while i < rows
        invariant
            i <= rows,
            0 < cols,
            rows * cols == v@.len(),
            v@.len() <= usize::MAX,
            out.deep_view().len() == i,
            forall|a: int|
                0 <= a < i ==> #[trigger] out.deep_view()[a] =~= unflat_u8(
                    v@,
                    rows as int,
                    cols as int,
                )[a],
        decreases rows - i,
    {
        proof {
            assert((i + 1) * cols <= rows * cols) by (nonlinear_arith)
                requires
                    i < rows,
                    0 < cols,
            ;
            assert(i * cols + cols == (i + 1) * cols) by (nonlinear_arith);
        }
        let mut row: Vec<u8> = Vec::new();
        let mut c: usize = 0;
        while c < cols
            invariant
                i < rows,
                c <= cols,
                0 < cols,
                i * cols + cols <= v@.len(),
                v@.len() <= usize::MAX,
                row@.len() == c,
                forall|b: int| 0 <= b < c ==> row@[b] == v@[i * cols + b],
            decreases cols - c,
        {
            row.push(v[i * cols + c]);
            c = c + 1;
        }
        let ghost pre = out.deep_view();
        out.push(row);
        proof {
            assert(out.deep_view() =~~= pre.push(row@));
            assert(out.deep_view()[i as int] =~= unflat_u8(v@, rows as int, cols as int)[i as int]);
        }
        i = i + 1;
    }
    proof {
        assert(out.deep_view() =~~= unflat_u8(v@, rows as int, cols as int));
    }
    out
}

/// Rebuild a grid of 64-bit values from its row-by-row flattening.
fn unflatten_u64(v: &Vec<u64>, rows: usize, cols: usize) -> (r: Vec<Vec<u64>>)
    requires
        0 < cols,
        rows * cols == v@.len(),
    ensures
        r.deep_view() == unflat_u64(v@, rows as int, cols as int),
{
    let vlen = v.len();
    assert(v@.len() <= usize::MAX);
    let mut out: Vec<Vec<u64>> = Vec::new();
    let mut i: usize = 0;
    while i < rows
        invariant
            i <= rows,
            0 < cols,
            rows * cols == v@.len(),
            v@.len() <= usize::MAX,
            out.deep_view().len() == i,
            forall|a: int|
                0 <= a < i ==> #[trigger] out.deep_view()[a] =~= unflat_u64(
                    v@,
                    rows as int,
                    cols as int,
                )[a],
        decreases rows - i,
    {
        proof {
            assert((i + 1) * cols <= rows * cols) by (nonlinear_arith)
                requires
                    i < rows,
                    0 < cols,
            ;
            assert(i * cols + cols == (i + 1) * cols) by (nonlinear_arith);
        }
        let mut row: Vec<u64> = Vec::new();
        let mut c: usize = 0;
        while c < cols
            invariant
                i < rows,
                c <= cols,
                0 < cols,
                i * cols + cols <= v@.len(),
                v@.len() <= usize::MAX,
                row@.len() == c,
                forall|b: int| 0 <= b < c ==> row@[b] == v@[i * cols + b],
            decreases cols - c,
        {
            row.push(v[i * cols + c]);
            c = c + 1;
        }
        let ghost pre = out.deep_view();
        out.push(row);
        proof {
            assert(out.deep_view() =~~= pre.push(row@));
            assert(out.deep_view()[i as int] =~= unflat_u64(
                v@,
                rows as int,
                cols as int,
            )[i as int]);
        }
        i = i + 1;
    }
    proof {
        assert(out.deep_view() =~~= unflat_u64(v@, rows as int, cols as int));
    }
    out
}

fn read_line(buf: &[u8], pos: usize) -> (r: Option<(LineReveal, usize)>)
    ensures
        match r {
            Option::Some(p) => dec_line(buf@, pos as int) == Option::Some(
                (line_view(p.0), p.1 as int),
            ),
            Option::None => dec_line(buf@, pos as int) is None,
        },
{
    match read_usize_c(buf, pos) {
        Option::None => Option::None,
        Option::Some((idx, p1)) => match read_bytes(buf, p1, 9) {
            Option::None => Option::None,
            Option::Some((vals, p2)) => match read_u64s(buf, p2, 9) {
                Option::None => Option::None,
                Option::Some((rnd, p3)) => Option::Some(
                    (LineReveal { index: idx, values: vals, randomness: rnd }, p3),
                ),
            },
        },
    }
}

fn read_box(buf: &[u8], pos: usize) -> (r: Option<(BoxReveal, usize)>)
    ensures
        match r {
            Option::Some(p) => dec_box(buf@, pos as int) == Option::Some(
                (box_view(p.0), p.1 as int),
            ),
            Option::None => dec_box(buf@, pos as int) is None,
        },
{
    match read_usize_c(buf, pos) {
        Option::None => Option::None,
        Option::Some((idx, p1)) => match read_bytes(buf, p1, 9) {
            Option::None => Option::None,
            Option::Some((vals, p2)) => match read_u64s(buf, p2, 9) {
                Option::None => Option::None,
                Option::Some((rnd, p3)) => {
                    let values = unflatten_u8(&vals, 3, 3);
                    let randomness = unflatten_u64(&rnd, 3, 3);
                    Option::Some((BoxReveal { index: idx, values, randomness }, p3))
                },
            },
        },
    }
}

fn read_clue(buf: &[u8], pos: usize) -> (r: Option<(ClueReveal, usize)>)
    ensures
        match r {
            Option::Some(p) => dec_clue(buf@, pos as int) == Option::Some(
                (clue_view(p.0), p.1 as int),
            ),
            Option::None => dec_clue(buf@, pos as int) is None,
        },
{
    match read_usize_c(buf, pos) {
        Option::None => Option::None,
        Option::Some((row, p1)) => match read_usize_c(buf, p1) {
            Option::None => Option::None,
            Option::Some((col, p2)) => match read_u8c(buf, p2) {
                Option::None => Option::None,
                Option::Some((mv, p3)) => match read_u64c(buf, p3) {
                    Option::None => Option::None,
                    Option::Some((rnd, p4)) => Option::Some(
                        (ClueReveal { row, col, mapped_value: mv, randomness: rnd }, p4),
                    ),
                },
            },
        },
    }
}

fn read_clues(buf: &[u8], pos: usize, n: usize) -> (r: Option<(Vec<ClueReveal>, usize)>)
    ensures
        match r {
            Option::Some(p) => dec_clues(buf@, pos as int, n as int) == Option::Some(
                (p.0@.map_values(|e: ClueReveal| clue_view(e)), p.1 as int),
            ),
            Option::None => dec_clues(buf@, pos as int, n as int) is None,
        },
{
    let mut out: Vec<ClueReveal> = Vec::new();
    let mut i: usize = 0;
    let mut p: usize = pos;
    while i < n
        invariant
            i <= n,
            dec_clues(buf@, pos as int, n as int) == (match dec_clues(
                buf@,
                p as int,
                n - i,
            ) {
                Option::None => Option::None::<(Seq<ClueRevealV>, int)>,
                Option::Some((cs, q)) => Option::Some(
                    (out@.map_values(|e: ClueReveal| clue_view(e)) + cs, q),
                ),
            }),
        decreases n - i,
    {
        match read_clue(buf, p) {
            Option::None => {
                proof {
                    assert(dec_clues(buf@, p as int, n - i) is None);
                }
                return Option::None;
            },
            Option::Some((c, p2)) => {
                proof {
                    assert(dec_clues(buf@, p as int, n - i) == (match dec_clues(
                        buf@,
                        p2 as int,
                        n - i - 1,
                    ) {
                        Option::None => Option::None::<(Seq<ClueRevealV>, int)>,
                        Option::Some((cs, q)) => Option::Some((seq![clue_view(c)] + cs, q)),
                    }));
                }
                let ghost pre = out@;
                out.push(c);
                proof {
                    assert(out@.map_values(|e: ClueReveal| clue_view(e)) =~= pre.map_values(
                        |e: ClueReveal| clue_view(e),
                    ).push(clue_view(c)));
                    assert forall|cs: Seq<ClueRevealV>|
                        pre.map_values(|e: ClueReveal| clue_view(e)) + (seq![clue_view(c)] + cs)
                            =~= out@.map_values(|e: ClueReveal| clue_view(e)) + cs by {}
                }
                p = p2;
                i = i + 1;
            },
        }
    }
    proof {
        assert(dec_clues(buf@, p as int, 0) == Option::Some(
            (Seq::<ClueRevealV>::empty(), p as int),
        ));
        assert(out@.map_values(|e: ClueReveal| clue_view(e)) + Seq::<ClueRevealV>::empty()
            =~= out@.map_values(|e: ClueReveal| clue_view(e)));
    }
    Option::Some((out, p))
}

fn read_clue_response(buf: &[u8], pos: usize) -> (r: Option<(ClueResponse, usize)>)
    ensures
        match r {
            Option::Some(p) => dec_clue_response(buf@, pos as int) == Option::Some(
                (clue_response_view(p.0), p.1 as int),
            ),
            Option::None => dec_clue_response(buf@, pos as int) is None,
        },
{
    match read_bytes(buf, pos, 10) {
        Option::None => Option::None,
        Option::Some((mapping, p1)) => match read_u64s(buf, p1, 10) {
            Option::None => Option::None,
            Option::Some((mrnd, p2)) => match read_usize_c(buf, p2) {
                Option::None => Option::None,
                Option::Some((n, p3)) => match read_clues(buf, p3, n) {
                    Option::None => Option::None,
                    Option::Some((cs, p4)) => Option::Some(
                        (
                            ClueResponse {
                                mapping,
                                mapping_randomness: mrnd,
                                clues: cs,
                            },
                            p4,
                        ),
                    ),
                },
            },
        },
    }
}

fn read_payload(buf: &[u8], pos: usize) -> (r: Option<(RevealPayload, usize)>)
    ensures
        match r {
            Option::Some(p) => dec_payload(buf@, pos as int) == Option::Some(
                (payload_view(p.0), p.1 as int),
            ),
            Option::None => dec_payload(buf@, pos as int) is None,
        },
{
    match read_u8c(buf, pos) {
        Option::None => Option::None,
        Option::Some((t, p1)) => {
            if t == 0 {
                match read_line(buf, p1) {
                    Option::None => Option::None,
                    Option::Some((l, p2)) => Option::Some((RevealPayload::Row(l), p2)),
                }
            } else if t == 1 {
                match read_line(buf, p1) {
                    Option::None => Option::None,
                    Option::Some((l, p2)) => Option::Some((RevealPayload::Col(l), p2)),
                }
            } else if t == 2 {
                match read_box(buf, p1) {
                    Option::None => Option::None,
                    Option::Some((x, p2)) => Option::Some((RevealPayload::Box(x), p2)),
                }
            } else if t == 3 {
                match read_clue_response(buf, p1) {
                    Option::None => Option::None,
                    Option::Some((c, p2)) => Option::Some((RevealPayload::Clue(c), p2)),
                }
            } else {
                Option::None
            }
        },
    }
}

/// Decode one prover message, requiring the buffer to hold exactly one
/// encoded message and nothing more.
pub fn decode_prover_message(buf: &[u8]) -> (r: Option<ProverMessage>)
    ensures
        match r {
            Option::Some(m) => dec_prover(buf@, 0) == Option::Some(
                (prover_msg_view(m), buf@.len() as int),
            ),
            Option::None => match dec_prover(buf@, 0) {
                Option::Some(vp) => vp.1 != buf@.len(),
                Option::None => true,
            },
        },
{
    match read_u8c(buf, 0) {
        Option::None => Option::None,
        Option::Some((t, p1)) => {
            if t == 0 {
                match read_bytes(buf, p1, 81) {
                    Option::None => Option::None,
                    Option::Some((g, p2)) => match read_usize_c(buf, p2) {
                        Option::None => Option::None,
                        Option::Some((clues, p3)) => {
                            if p3 != buf.len() {
                                return Option::None;
                            }
                            let puzzle = unflatten_u8(&g, 9, 9);
                            Option::Some(ProverMessage::Puzzle(PuzzleMessage { puzzle, clues }))
                        },
                    },
                }
            } else if t == 1 {
                match read_usize_c(buf, p1) {
                    Option::None => Option::None,
                    Option::Some((round, p2)) => match read_u64s(buf, p2, 81) {
                        Option::None => Option::None,
                        Option::Some((board, p3)) => match read_u64s(buf, p3, 10) {
                            Option::None => Option::None,
                            Option::Some((mc, p4)) => {
                                if p4 != buf.len() {
                                    return Option::None;
                                }
                                let board_commit = unflatten_u64(&board, 9, 9);
                                Option::Some(
                                    ProverMessage::Commitment(
                                        CommitmentMessage {
                                            round,
                                            board_commit,
                                            mapping_commit: mc,
                                        },
                                    ),
                                )
                            },
                        },
                    },
                }
            } else if t == 2 {
                match read_usize_c(buf, p1) {
                    Option::None => Option::None,
                    Option::Some((round, p2)) => match read_payload(buf, p2) {
                        Option::None => Option::None,
                        Option::Some((pl, p3)) => {
                            if p3 != buf.len() {
                                return Option::None;
                            }
                            Option::Some(
                                ProverMessage::Response(ResponseMessage { round, payload: pl }),
                            )
                        },
                    },
                }
            } else if t == 3 {
                match read_string(buf, p1) {
                    Option::None => Option::None,
                    Option::Some((s, p2)) => {
                        if p2 != buf.len() {
                            return Option::None;
                        }
                        Option::Some(ProverMessage::Abort(s))
                    },
                }
            } else {
                Option::None
            }
        },
    }
}

/// Decode one verifier message, requiring the buffer to hold exactly one
/// encoded message and nothing more.
pub fn decode_verifier_message(buf: &[u8]) -> (r: Option<VerifierMessage>)
    ensures
        match r {
            Option::Some(m) => dec_verifier(buf@, 0) == Option::Some(
                (verifier_msg_view(m), buf@.len() as int),
            ),
            Option::None => match dec_verifier(buf@, 0) {
                Option::Some(vp) => vp.1 != buf@.len(),
                Option::None => true,
            },
        },
{
    match read_u8c(buf, 0) {
        Option::None => Option::None,
        Option::Some((t, p1)) => {
            if t == 0 {
                match read_usize_c(buf, p1) {
                    Option::None => Option::None,
                    Option::Some((rounds, p2)) => {
                        if p2 != buf.len() {
                            return Option::None;
                        }
                        Option::Some(VerifierMessage::PuzzleAck { rounds })
                    },
                }
            } else if t == 1 {
                match read_usize_c(buf, p1) {
                    Option::None => Option::None,
                    Option::Some((round, p2)) => match read_challenge(buf, p2) {
                        Option::None => Option::None,
                        Option::Some((c, p3)) => {
                            if p3 != buf.len() {
                                return Option::None;
                            }
                            Option::Some(VerifierMessage::Challenge { round, challenge: c })
                        },
                    },
                }
            } else if t == 2 {
                match read_usize_c(buf, p1) {
                    Option::None => Option::None,
                    Option::Some((round, p2)) => match read_bool_c(buf, p2) {
                        Option::None => Option::None,
                        Option::Some((acc, p3)) => match read_opt_string(buf, p3) {
                            Option::None => Option::None,
                            Option::Some((reason, p4)) => {
                                if p4 != buf.len() {
                                    return Option::None;
                                }
                                Option::Some(
                                    VerifierMessage::RoundResult { round, accepted: acc, reason },
                                )
                            },
                        },
                    },
                }
            } else if t == 3 {
                match read_bool_c(buf, p1) {
                    Option::None => Option::None,
                    Option::Some((acc, p2)) => {
                        if p2 != buf.len() {
                            return Option::None;
                        }
                        Option::Some(VerifierMessage::FinalResult { accepted: acc })
                    },
                }
            } else if t == 4 {
                match read_string(buf, p1) {
                    Option::None => Option::None,
                    Option::Some((s, p2)) => {
                        if p2 != buf.len() {
                            return Option::None;
                        }
                        Option::Some(VerifierMessage::Abort(s))
                    },
                }
            } else {
                Option::None
            }
        },
    }
}

} // verus!
