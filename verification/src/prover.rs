//! The prover's side of the proof protocol: fresh per-round artifacts
//! (mapping, mapped board, commitments) and the reveal for each challenge;
//! the command-line parser; and the two session laws — an honest round is
//! always accepted, and a committed board that breaks the challenged line is
//! always rejected.
use vstd::prelude::*;
use vstd::string::{StrSliceExecFns, StringExecFns};
use crate::challenge::{challenge_wf, ChallengeType};
use crate::commit::{mat_commits, vec_commits, CastCommit, CommitMat_, MatCommit};
use crate::grid::{
    box_seq, col_seq, grid_wf, is_solution, lemma_box_cell_bounds, lemma_cell_in_range,
    lemma_mapped_grid_valid, mapped_grid, puzzle_of, row_seq,
};
use crate::messages::{
    BoxReveal, ClueResponse, ClueReveal, CommitmentMessage, LineReveal, ResponseMessage,
    RevealPayload,
};
use crate::sudoku::{
    cast_wf, copy_matrix, copy_row, lemma_deep_dims_u64, lemma_deep_dims_u8, CommitMat, Matrix,
    Sudoku,
};
use crate::zk_verifier::{
    box_reveal_ok, box_values, clue_entry_ok, clue_response_ok, clues_listed, clues_wf,
    col_reveal_ok, commit_mat_wf, first_clue_match, round_accepts, row_reveal_ok,
};

verus! {

/// What the prover keeps for one round: the digit mapping with its
/// commitment randomness, and the mapped board with its randomness matrix.
pub struct RoundArtifacts {
    pub mapping: Vec<u8>,
    pub mapping_randomness: Vec<u64>,
    pub mapped_solution: Matrix,
    pub board_randomness: CommitMat,
}

/// The artifacts are honest for this commitment message: the mapping is a
/// digit mapping, the mapped board is a valid Sudoku, and both commitments
/// open cell by cell to the artifacts.
pub open spec fn artifacts_commit(art: RoundArtifacts, commitment: CommitmentMessage) -> bool {
    &&& cast_wf(art.mapping@)
    &&& is_solution(art.mapped_solution.deep_view())
    &&& mat_commits(
        art.mapped_solution.deep_view(),
        commitment.board_commit.deep_view(),
        art.board_randomness.deep_view(),
    )
    &&& vec_commits(art.mapping@, commitment.mapping_commit@, art.mapping_randomness@)
}

/// The reveal answers the challenge honestly from the artifacts: it carries
/// exactly the challenged slice of the mapped board with its randomness, or
/// the full mapping with one entry per public clue.
pub open spec fn response_matches(
    resp: ResponseMessage,
    round_idx: usize,
    challenge: ChallengeType,
    art: RoundArtifacts,
    clues: Seq<(usize, usize, u8)>,
) -> bool {
    let m = art.mapped_solution.deep_view();
    let rnd = art.board_randomness.deep_view();
    &&& resp.round == round_idx
    &&& match (challenge, resp.payload) {
        (ChallengeType::Row(k), RevealPayload::Row(line)) => {
            &&& line.index == k
            &&& line.values@ == m[k as int]
            &&& line.randomness@ == rnd[k as int]
        },
        (ChallengeType::Col(k), RevealPayload::Col(line)) => {
            &&& line.index == k
            &&& line.values@ == Seq::new(9, |r: int| m[r][k as int])
            &&& line.randomness@ == Seq::new(9, |r: int| rnd[r][k as int])
        },
        (ChallengeType::Box(k), RevealPayload::Box(cell)) => {
            &&& cell.index == k
            &&& cell.values.deep_view().len() == 3
            &&& cell.randomness.deep_view().len() == 3
            &&& forall|i: int| 0 <= i < 3 ==> (#[trigger] cell.values.deep_view()[i]).len() == 3
            &&& forall|i: int| 0 <= i < 3 ==> (#[trigger] cell.randomness.deep_view()[i]).len() == 3
            &&& forall|i: int, j: int|
                0 <= i < 3 && 0 <= j < 3 ==> cell.values.deep_view()[i][j] == m[(k as int / 3) * 3
                    + i][(k as int % 3) * 3 + j]
            &&& forall|i: int, j: int|
                0 <= i < 3 && 0 <= j < 3 ==> cell.randomness.deep_view()[i][j] == rnd[(k as int / 3)
                    * 3 + i][(k as int % 3) * 3 + j]
        },
        (ChallengeType::Clue, RevealPayload::Clue(data)) => {
            &&& data.mapping@ == art.mapping@
            &&& data.mapping_randomness@ == art.mapping_randomness@
            &&& data.clues@.len() == clues.len()
            &&& forall|i: int|
                0 <= i < clues.len() ==> {
                    let e = #[trigger] data.clues@[i];
                    &&& e.row == clues[i].0
                    &&& e.col == clues[i].1
                    &&& e.mapped_value == m[clues[i].0 as int][clues[i].1 as int]
                    &&& e.randomness == rnd[clues[i].0 as int][clues[i].1 as int]
                }
        },
        _ => false,
    }
}

/// The prover's session state: the generator and the connection settings.
pub struct Prover {
    pub sudo: Sudoku,
    pub port: String,
    pub host: String,
    pub rounds: usize,
    pub clues: usize,
}

impl Prover {
    /// A prover with the given settings or their defaults; the clue count is
    /// clamped to at least 30.
    pub fn new(
        port_: Option<String>,
        host_: Option<String>,
        rounds_: Option<usize>,
        clues_: Option<i8>,
    ) -> (p: Prover)
        ensures
            p.rounds == match rounds_ {
                Option::Some(n) => n,
                Option::None => 10usize,
            },
            p.port@ == match port_ {
                Option::Some(s) => s@,
                Option::None => "8899"@,
            },
            p.host@ == match host_ {
                Option::Some(s) => s@,
                Option::None => "127.0.0.1"@,
            },
            p.clues == match clues_ {
                Option::Some(c) => if c >= 30 {
                    c as usize
                } else {
                    30usize
                },
                Option::None => 30usize,
            },
            grid_wf(p.sudo.solution.deep_view()),
            grid_wf(p.sudo.puzzle.deep_view()),
            cast_wf(p.sudo.cast@),
    {
        let port = match port_ {
            Option::Some(s) => s,
            Option::None => String::from_str("8899"),
        };
        let host = match host_ {
            Option::Some(s) => s,
            Option::None => String::from_str("127.0.0.1"),
        };
        let rounds = match rounds_ {
            Option::Some(n) => n,
            Option::None => 10,
        };
        let clues: usize = match clues_ {
            Option::Some(c) => if c >= 30 {
                c as usize
            } else {
                30
            },
            Option::None => 30,
        };
        Prover { sudo: Sudoku::new(), port, host, rounds, clues }
    }

    /// Generate the session's solution and puzzle.
    pub fn init_puzzle(&mut self)
        ensures
            is_solution(final(self).sudo.solution.deep_view()),
            puzzle_of(final(self).sudo.puzzle.deep_view(), final(self).sudo.solution.deep_view()),
            crate::grid::nz_grid(final(self).sudo.puzzle.deep_view()) == crate::sudoku::clue_target(
                Option::Some(old(self).clues),
            ),
            final(self).sudo.cast == old(self).sudo.cast,
            final(self).port == old(self).port,
            final(self).host == old(self).host,
            final(self).rounds == old(self).rounds,
            final(self).clues == old(self).clues,
    {
        let clues = self.clues;
        self.sudo.init(Some(clues));
    }

    /// The clue set of the session's puzzle.
    pub fn clue_cells(&self) -> (cl: Vec<(usize, usize, u8)>)
        requires
            grid_wf(self.sudo.puzzle.deep_view()),
        ensures
            clues_listed(self.sudo.puzzle.deep_view(), cl@),
            clues_wf(cl@),
    {
        crate::zk_verifier::collect_clue_cells(&self.sudo.puzzle)
    }

    /// Apply a digit mapping to every cell of a board.
    pub fn apply_mapping(solution: &Matrix, mapping: &Vec<u8>) -> (m: Matrix)
        requires
            grid_wf(solution.deep_view()),
            mapping@.len() == 10,
            forall|r: int, c: int|
                0 <= r < 9 && 0 <= c < 9 ==> solution.deep_view()[r][c] <= 9,
        ensures
            m.deep_view() == mapped_grid(solution.deep_view(), mapping@),
    {
        let ghost g = solution.deep_view();
        let mut out: Matrix = Vec::new();
        let mut r: usize = 0;
        while r < 9
            invariant
                r <= 9,
                grid_wf(g),
                g == solution.deep_view(),
                mapping@.len() == 10,
                forall|a: int, b: int| 0 <= a < 9 && 0 <= b < 9 ==> g[a][b] <= 9,
                out.deep_view().len() == r,
                forall|a: int| 0 <= a < r ==> (#[trigger] out.deep_view()[a]).len() == 9,
                forall|a: int, b: int|
                    0 <= a < r && 0 <= b < 9 ==> out.deep_view()[a][b] == mapping@[g[a][b] as int],
            decreases 9 - r,
        {
            let mut line: Vec<u8> = Vec::new();
            let mut c: usize = 0;
            while c < 9
                invariant
                    r < 9,
                    c <= 9,
                    grid_wf(g),
                    g == solution.deep_view(),
                    mapping@.len() == 10,
                    forall|a: int, b: int| 0 <= a < 9 && 0 <= b < 9 ==> g[a][b] <= 9,
                    line@.len() == c,
                    forall|b: int| 0 <= b < c ==> line@[b] == mapping@[g[r as int][b] as int],
                decreases 9 - c,
            {
                proof {
                    lemma_deep_dims_u8(*solution);
                }
                let v = solution[r][c];
                line.push(mapping[v as usize]);
                c = c + 1;
            }
            let ghost pre = out.deep_view();
            out.push(line);
            proof {
                assert(out.deep_view() =~~= pre.push(line@));
            }
            r = r + 1;
        }
        assert(out.deep_view() =~~= mapped_grid(g, mapping@));
        out
    }

    /// Draw a fresh mapping, map the solution, and commit to both.  The
    /// returned commitment message carries round number 0; the caller sets
    /// the real round index.
    pub fn prepare_round(&mut self) -> (res: (CommitmentMessage, RoundArtifacts))
        requires
            is_solution(old(self).sudo.solution.deep_view()),
            cast_wf(old(self).sudo.cast@),
        ensures
            final(self).sudo.solution == old(self).sudo.solution,
            final(self).sudo.puzzle == old(self).sudo.puzzle,
            cast_wf(final(self).sudo.cast@),
            final(self).port == old(self).port,
            final(self).host == old(self).host,
            final(self).rounds == old(self).rounds,
            final(self).clues == old(self).clues,
            res.0.round == 0,
            res.1.mapping@ == final(self).sudo.cast@,
            res.1.mapped_solution.deep_view() == mapped_grid(
                old(self).sudo.solution.deep_view(),
                res.1.mapping@,
            ),
            artifacts_commit(res.1, res.0),
            res.0.mapping_commit@.len() == 10,
    {
        let mapping = self.sudo.gen_cast();
        proof {
            assert forall|r: int, c: int|
                0 <= r < 9 && 0 <= c < 9 implies self.sudo.solution.deep_view()[r][c] <= 9 by {
                lemma_cell_in_range(self.sudo.solution.deep_view(), r, c);
            }
        }
        let mapped_solution = Self::apply_mapping(&self.sudo.solution, &mapping);
        proof {
            lemma_mapped_grid_valid(self.sudo.solution.deep_view(), mapping@);
        }
        let (board_commit, board_randomness) = mapped_solution.commit();
        let (mapping_commit, mapping_randomness) = mapping.commit();
        let commitment = CommitmentMessage { round: 0, board_commit, mapping_commit };
        let artifacts = RoundArtifacts {
            mapping,
            mapping_randomness,
            mapped_solution,
            board_randomness,
        };
        (commitment, artifacts)
    }

    /// Build the reveal for a challenge from this round's artifacts.
    pub fn respond_to_challenge(
        &self,
        round_idx: usize,
        challenge: ChallengeType,
        artifacts: &RoundArtifacts,
        clues: &Vec<(usize, usize, u8)>,
    ) -> (resp: ResponseMessage)
        requires
            challenge_wf(challenge, 9),
            grid_wf(artifacts.mapped_solution.deep_view()),
            commit_mat_wf(artifacts.board_randomness.deep_view()),
            clues_wf(clues@),
        ensures
            response_matches(resp, round_idx, challenge, *artifacts, clues@),
    {
        let ghost m = artifacts.mapped_solution.deep_view();
        let ghost rnd = artifacts.board_randomness.deep_view();
        let payload = match challenge {
            ChallengeType::Row(row) => {
                proof {
                    lemma_deep_dims_u8(artifacts.mapped_solution);
                    lemma_deep_dims_u64(artifacts.board_randomness);
                }
                let values = copy_row(&artifacts.mapped_solution[row]);
                let randomness = copy_vec_u64(&artifacts.board_randomness[row]);
                RevealPayload::Row(LineReveal { index: row, values, randomness })
            },
            ChallengeType::Col(col) => {
                let mut values: Vec<u8> = Vec::new();
                let mut randomness: Vec<u64> = Vec::new();
                let mut r: usize = 0;
                while r < 9
                    invariant
                        r <= 9,
                        col < 9,
                        grid_wf(m),
                        commit_mat_wf(rnd),
                        m == artifacts.mapped_solution.deep_view(),
                        rnd == artifacts.board_randomness.deep_view(),
                        values@.len() == r,
                        randomness@.len() == r,
                        forall|a: int| 0 <= a < r ==> values@[a] == m[a][col as int],
                        forall|a: int| 0 <= a < r ==> randomness@[a] == rnd[a][col as int],
                    decreases 9 - r,
                {
                    proof {
                        lemma_deep_dims_u8(artifacts.mapped_solution);
                        lemma_deep_dims_u64(artifacts.board_randomness);
                    }
                    values.push(artifacts.mapped_solution[r][col]);
                    randomness.push(artifacts.board_randomness[r][col]);
                    r = r + 1;
                }
                proof {
                    assert(values@ =~= Seq::new(9, |a: int| m[a][col as int]));
                    assert(randomness@ =~= Seq::new(9, |a: int| rnd[a][col as int]));
                }
                RevealPayload::Col(LineReveal { index: col, values, randomness })
            },
            ChallengeType::Box(cell) => {
                let values = artifacts.mapped_solution.get_a_cell(cell as u8);
                let randomness = artifacts.board_randomness.get_a_cell(cell as u8);
                RevealPayload::Box(BoxReveal { index: cell, values, randomness })
            },
            ChallengeType::Clue => {
                let mut clue_payloads: Vec<ClueReveal> = Vec::new();
                let mut i: usize = 0;
                while i < clues.len()
                    invariant
                        i <= clues@.len(),
                        grid_wf(m),
                        commit_mat_wf(rnd),
                        m == artifacts.mapped_solution.deep_view(),
                        rnd == artifacts.board_randomness.deep_view(),
                        clues_wf(clues@),
                        clue_payloads@.len() == i,
                        forall|j: int|
                            0 <= j < i ==> {
                                let e = #[trigger] clue_payloads@[j];
                                &&& e.row == clues@[j].0
                                &&& e.col == clues@[j].1
                                &&& e.mapped_value == m[clues@[j].0 as int][clues@[j].1 as int]
                                &&& e.randomness == rnd[clues@[j].0 as int][clues@[j].1 as int]
                            },
                    decreases clues@.len() - i,
                {
                    proof {
                        lemma_deep_dims_u8(artifacts.mapped_solution);
                        lemma_deep_dims_u64(artifacts.board_randomness);
                    }
                    let (row, col, _v) = clues[i];
                    clue_payloads.push(ClueReveal {
                        row,
                        col,
                        mapped_value: artifacts.mapped_solution[row][col],
                        randomness: artifacts.board_randomness[row][col],
                    });
                    i = i + 1;
                }
                RevealPayload::Clue(ClueResponse {
                    mapping: copy_row(&artifacts.mapping),
                    mapping_randomness: copy_vec_u64(&artifacts.mapping_randomness),
                    clues: clue_payloads,
                })
            },
        };
        ResponseMessage { round: round_idx, payload }
    }
}

/// Copy a vector of randomness or digests.
pub fn copy_vec_u64(v: &Vec<u64>) -> (r: Vec<u64>)
    ensures
        r@ == v@,
{
    let mut out: Vec<u64> = Vec::new();
    let mut i: usize = 0;
    while i < v.len()
        invariant
            i <= v@.len(),
            out@ == v@.subrange(0, i as int),
        decreases v@.len() - i,
    {
        out.push(v[i]);
        assert(out@ =~= v@.subrange(0, i as int + 1));
        i = i + 1;
    }
    assert(out@ =~= v@);
    out
}

/// A matching clue entry exists, so the first match is one of them and
/// opens the right cell.
proof fn lemma_first_match_found(entries: Seq<ClueReveal>, r: usize, c: usize)
    requires
        exists|i: int|
            0 <= i < entries.len() && (#[trigger] entries[i]).row == r && entries[i].col == c,
    ensures
        match first_clue_match(entries, r, c) {
            Option::None => false,
            Option::Some(e) => e.row == r && e.col == c && exists|i: int|
                0 <= i < entries.len() && #[trigger] entries[i] == e,
        },
    decreases entries.len(),
{
    if entries[0].row == r && entries[0].col == c {
        assert(entries[0] == entries[0]);
    } else {
        let i = choose|i: int|
            0 <= i < entries.len() && (#[trigger] entries[i]).row == r && entries[i].col == c;
        assert(entries.drop_first()[i - 1] == entries[i]);
        lemma_first_match_found(entries.drop_first(), r, c);
        match first_clue_match(entries.drop_first(), r, c) {
            Option::None => {
                assert(false);
            },
            Option::Some(e) => {
                let j = choose|j: int| 0 <= j < entries.drop_first().len() && #[trigger] entries
                    .drop_first()[j] == e;
                assert(entries[j + 1] == e);
            },
        }
    }
}

/// Completeness of one round: an honest prover's reveal, built from
/// artifacts whose commitments the verifier holds, is accepted for every
/// challenge.
pub proof fn lemma_honest_round_accepted(
    puzzle: Seq<Seq<u8>>,
    solution: Seq<Seq<u8>>,
    clues: Seq<(usize, usize, u8)>,
    art: RoundArtifacts,
    commitment: CommitmentMessage,
    response: ResponseMessage,
    challenge: ChallengeType,
)
    requires
        is_solution(solution),
        puzzle_of(puzzle, solution),
        clues_listed(puzzle, clues),
        challenge_wf(challenge, 9),
        art.mapped_solution.deep_view() == mapped_grid(solution, art.mapping@),
        artifacts_commit(art, commitment),
        response.round == commitment.round,
        response_matches(response, response.round, challenge, art, clues),
    ensures
        round_accepts(clues, commitment, response, challenge),
{
    let m = art.mapped_solution.deep_view();
    let rnd = art.board_randomness.deep_view();
    let board = commitment.board_commit.deep_view();
    assert(is_solution(m));
    assert(commit_mat_wf(board));
    match (challenge, response.payload) {
        (ChallengeType::Row(k), RevealPayload::Row(line)) => {
            assert(line.values@ == row_seq(m, k as int));
            assert(crate::grid::line_ok(row_seq(m, k as int)));
            assert(row_reveal_ok(k as int, line, board));
        },
        (ChallengeType::Col(k), RevealPayload::Col(line)) => {
            assert(line.values@ =~= col_seq(m, k as int));
            assert(crate::grid::line_ok(col_seq(m, k as int)));
            assert(col_reveal_ok(k as int, line, board));
        },
        (ChallengeType::Box(k), RevealPayload::Box(cell)) => {
            assert forall|q: int| 0 <= q < 9 implies box_values(cell)[q] == box_seq(m, k as int)[q] by {
                lemma_box_cell_bounds(k as int, q);
            }
            assert(box_values(cell) =~= box_seq(m, k as int));
            assert(crate::grid::line_ok(box_seq(m, k as int)));
            assert forall|i: int, j: int| 0 <= i < 3 && 0 <= j < 3 implies
                crate::commit::value_verifies(
                cell.values.deep_view()[i][j],
                cell.randomness.deep_view()[i][j],
                board[(k as int / 3) * 3 + i][(k as int % 3) * 3 + j],
            ) by {
                lemma_box_cell_bounds(k as int, 3 * i + j);
                vstd::arithmetic::div_mod::lemma_fundamental_div_mod_converse(
                    3 * i + j,
                    3,
                    i,
                    j,
                );
            }
            assert(box_reveal_ok(k as int, cell, board));
        },
        (ChallengeType::Clue, RevealPayload::Clue(data)) => {
            assert(data.mapping@.len() == 10);
            assert(commitment.mapping_commit@.len() == 10);
            assert forall|i: int|
                0 <= i < clues.len() implies clue_entry_ok(#[trigger] clues[i], data, board) by {
                let r = clues[i].0;
                let c = clues[i].1;
                let v = clues[i].2;
                assert(data.clues@[i].row == r && data.clues@[i].col == c);
                lemma_first_match_found(data.clues@, r, c);
                let e = first_clue_match(data.clues@, r, c)->Some_0;
                let j = choose|j: int| 0 <= j < data.clues@.len() && #[trigger] data.clues@[j] == e;
                assert(e.row == clues[j].0 && e.col == clues[j].1);
                assert(clues[j].0 == r && clues[j].1 == c);
                assert(e.mapped_value == m[r as int][c as int]);
                assert(e.randomness == rnd[r as int][c as int]);
                // the clue digit is the solution digit, in range
                assert(puzzle[r as int][c as int] == v);
                assert(v == solution[r as int][c as int]);
                lemma_cell_in_range(solution, r as int, c as int);
                assert(m[r as int][c as int] == art.mapping@[v as int]);
                assert(data.mapping@[v as int] == e.mapped_value);
            }
            assert(clue_response_ok(clues, data, board, commitment.mapping_commit@));
        },
        _ => {
            assert(false);
        },
    }
}

/// Round soundness, deterministic core: if the committed board breaks the
/// Sudoku constraint on the challenged row, column or box, then even the
/// honest opening of that line is rejected.
pub proof fn lemma_invalid_line_rejected(
    clues: Seq<(usize, usize, u8)>,
    art: RoundArtifacts,
    commitment: CommitmentMessage,
    response: ResponseMessage,
    challenge: ChallengeType,
)
    requires
        challenge_wf(challenge, 9),
        response_matches(response, response.round, challenge, art, clues),
        match challenge {
            ChallengeType::Row(k) => !crate::grid::line_ok(
                row_seq(art.mapped_solution.deep_view(), k as int),
            ),
            ChallengeType::Col(k) => !crate::grid::line_ok(
                col_seq(art.mapped_solution.deep_view(), k as int),
            ),
            ChallengeType::Box(k) => !crate::grid::line_ok(
                box_seq(art.mapped_solution.deep_view(), k as int),
            ),
            ChallengeType::Clue => false,
        },
        grid_wf(art.mapped_solution.deep_view()),
        commit_mat_wf(art.board_randomness.deep_view()),
    ensures
        !round_accepts(clues, commitment, response, challenge),
{
    let m = art.mapped_solution.deep_view();
    match (challenge, response.payload) {
        (ChallengeType::Row(k), RevealPayload::Row(line)) => {
            assert(line.values@ == row_seq(m, k as int));
        },
        (ChallengeType::Col(k), RevealPayload::Col(line)) => {
            assert(line.values@ =~= col_seq(m, k as int));
        },
        (ChallengeType::Box(k), RevealPayload::Box(cell)) => {
            assert forall|q: int| 0 <= q < 9 implies box_values(cell)[q] == box_seq(m, k as int)[q] by {
                lemma_box_cell_bounds(k as int, q);
            }
            assert(box_values(cell) =~= box_seq(m, k as int));
        },
        _ => {},
    }
}

/// The decimal value of a digit string, most significant digit first.
pub open spec fn dec_val(s: Seq<char>) -> int
    decreases s.len(),
{
    if s.len() == 0 {
        0
    } else {
        dec_val(s.drop_last()) * 10 + (s.last() as int - '0' as int)
    }
}

/// Every character is a decimal digit.
pub open spec fn all_digits(s: Seq<char>) -> bool {
    forall|i: int| 0 <= i < s.len() ==> '0' <= #[trigger] s[i] <= '9'
}

/// The single character `-`, which selects a default argument.
pub open spec fn is_dash(s: Seq<char>) -> bool {
    s.len() == 1 && s[0] == '-'
}

proof fn lemma_dec_val_nonneg(s: Seq<char>)
    requires
        all_digits(s),
    ensures
        dec_val(s) >= 0,
    decreases s.len(),
{
    if s.len() > 0 {
        assert(all_digits(s.drop_last()));
        lemma_dec_val_nonneg(s.drop_last());
    }
}

/// A digit string is worth at least any of its prefixes.
proof fn lemma_dec_val_mono(s: Seq<char>, j: int)
    requires
        all_digits(s),
        0 <= j <= s.len(),
    ensures
        dec_val(s) >= dec_val(s.take(j)),
    decreases s.len() - j,
{
    if j == s.len() {
        assert(s.take(j) =~= s);
    } else {
        lemma_dec_val_mono(s, j + 1);
        assert(s.take(j + 1).drop_last() =~= s.take(j));
        assert(all_digits(s.take(j)));
        lemma_dec_val_nonneg(s.take(j));
        assert(dec_val(s.take(j + 1)) == dec_val(s.take(j)) * 10 + (s[j] as int - '0' as int));
    }
}

/// Parse an unsigned decimal number; `None` on an empty string, a non-digit,
/// or overflow.
pub fn parse_u64(s: &str) -> (r: Option<u64>)
    ensures
        (s@.len() > 0 && all_digits(s@) && dec_val(s@) <= u64::MAX) <==> r is Some,
        r matches Some(v) ==> v == dec_val(s@),
{
    let n = s.unicode_len();
    if n == 0 {
        return Option::None;
    }
    let mut acc: u64 = 0;
    let mut i: usize = 0;
    while i < n
        invariant
            i <= n,
            n == s@.len(),
            all_digits(s@.take(i as int)),
            acc == dec_val(s@.take(i as int)),
        decreases n - i,
    {
        let c = s.get_char(i);
        let code = c as u32;
        if code < 48 || code > 57 {
            return Option::None;
        }
        let digit: u64 = (code - 48) as u64;
        proof {
            assert(s@.take(i as int + 1).drop_last() =~= s@.take(i as int));
            assert(s@.take(i as int + 1).last() == s@[i as int]);
            assert('0' <= s@[i as int] <= '9');
            assert(digit == s@[i as int] as int - '0' as int) by {
                assert(c as int == code as int);
                assert('0' as int == 48);
            }
        }
        let limit: u64 = u64::MAX / 10;
        let rem: u64 = u64::MAX % 10;
        if acc > limit || (acc == limit && digit > rem) {
            proof {
                assert(dec_val(s@.take(i as int + 1)) > u64::MAX);
                if all_digits(s@) {
                    lemma_dec_val_mono(s@, i as int + 1);
                }
            }
            return Option::None;
        }
        acc = acc * 10 + digit;
        i = i + 1;
    }
    proof {
        assert(s@.take(n as int) =~= s@);
    }
    Option::Some(acc)
}

/// Parse a round count.
pub fn parse_usize(s: &str) -> (r: Option<usize>)
    ensures
        (s@.len() > 0 && all_digits(s@) && dec_val(s@) <= usize::MAX) <==> r is Some,
        r matches Some(v) ==> v == dec_val(s@),
{
    match parse_u64(s) {
        Option::None => Option::None,
        Option::Some(v) => {
            if v <= (usize::MAX as u64) {
                Option::Some(v as usize)
            } else {
                Option::None
            }
        },
    }
}

/// Parse a clue count: an optional minus sign and digits, within `i8` range.
pub fn parse_i8(s: &str) -> (r: Option<i8>)
    ensures
        r matches Some(v) ==> ((s@.len() > 1 && s@[0] == '-' && all_digits(s@.skip(1)) && v
            == -dec_val(s@.skip(1)) && dec_val(s@.skip(1)) <= 128) || (s@.len() > 0 && all_digits(
            s@,
        ) && v == dec_val(s@) && dec_val(s@) <= 127)),
        r is None ==> !(s@.len() > 0 && all_digits(s@) && dec_val(s@) <= 127) && !(s@.len() > 1
            && s@[0] == '-' && all_digits(s@.skip(1)) && dec_val(s@.skip(1)) <= 128),
{
    let n = s.unicode_len();
    if n == 0 {
        return Option::None;
    }
    if s.get_char(0) == '-' {
        let rest = s.substring_char(1, n);
        proof {
            assert(rest@ =~= s@.skip(1));
        }
        match parse_u64(rest) {
            Option::None => Option::None,
            Option::Some(v) => {
                if v <= 128 {
                    proof {
                        if all_digits(s@) {
                            assert('0' <= s@[0] <= '9');
                            assert(false);
                        }
                    }
                    Option::Some((-(v as i64)) as i8)
                } else {
                    proof {
                        if all_digits(s@) {
                            assert('0' <= s@[0] <= '9');
                            assert(false);
                        }
                    }
                    Option::None
                }
            },
        }
    } else {
        match parse_u64(s) {
            Option::None => Option::None,
            Option::Some(v) => {
                if v <= 127 {
                    Option::Some(v as i8)
                } else {
                    Option::None
                }
            },
        }
    }
}

/// True when the argument selects its default.
fn is_dash_arg(s: &String) -> (b: bool)
    ensures
        b == is_dash(s@),
{
    let n = s.as_str().unicode_len();
    if n != 1 {
        return false;
    }
    s.as_str().get_char(0) == '-'
}

/// Parse the prover's command line `prover <host> <port> <rounds> <clues>`
/// into a prover; `-` selects the default for a positional.
pub fn parser(args: Vec<String>) -> (r: Result<Prover, String>)
    ensures
        args@.len() < 5 ==> r is Err,
        r matches Ok(p) ==> {
            &&& args@.len() >= 5
            &&& p.host@ == if is_dash(args@[1]@) {
                "127.0.0.1"@
            } else {
                args@[1]@
            }
            &&& p.port@ == if is_dash(args@[2]@) {
                "8899"@
            } else {
                args@[2]@
            }
            &&& (is_dash(args@[3]@) ==> p.rounds == 10)
            &&& (!is_dash(args@[3]@) ==> p.rounds == dec_val(args@[3]@))
            &&& (is_dash(args@[4]@) ==> p.clues == 30)
            &&& p.clues >= 30
            &&& grid_wf(p.sudo.solution.deep_view())
            &&& grid_wf(p.sudo.puzzle.deep_view())
            &&& cast_wf(p.sudo.cast@)
        },
{
    if args.len() < 5 {
        return Result::Err(String::from_str("Usage: prover <host> <port> <rounds> <clues>"));
    }

    let host = if is_dash_arg(&args[1]) {
        Option::None
    } else {
        Option::Some(args[1].clone())
    };

    let port = if is_dash_arg(&args[2]) {
        Option::None
    } else {
        Option::Some(args[2].clone())
    };

    let rounds = if is_dash_arg(&args[3]) {
        Option::None
    } else {
        match parse_usize(args[3].as_str()) {
            Option::Some(n) => Option::Some(n),
            Option::None => {
                return Result::Err(String::from_str("Invalid rounds value"));
            },
        }
    };

    let clues: Option<i8> = if is_dash_arg(&args[4]) {
        Option::None
    } else {
        match parse_i8(args[4].as_str()) {
            Option::Some(n) => Option::Some(n),
            Option::None => {
                return Result::Err(String::from_str("Invalid clues value"));
            },
        }
    };

    Result::Ok(Prover::new(port, host, rounds, clues))
}

/// Round soundness, clue direction: if the committed board disagrees with
/// the committed mapping on some public clue cell, then even the honest
/// opening of the clue challenge is rejected.
pub proof fn lemma_clue_lie_rejected(
    clues: Seq<(usize, usize, u8)>,
    art: RoundArtifacts,
    commitment: CommitmentMessage,
    response: ResponseMessage,
    i: int,
)
    requires
        response_matches(response, response.round, ChallengeType::Clue, art, clues),
        clues_wf(clues),
        grid_wf(art.mapped_solution.deep_view()),
        0 <= i < clues.len(),
        (clues[i].2 as int) < art.mapping@.len(),
        art.mapped_solution.deep_view()[clues[i].0 as int][clues[i].1 as int] != art.mapping@[
            clues[i].2 as int],
    ensures
        !round_accepts(clues, commitment, response, ChallengeType::Clue),
{
    let m = art.mapped_solution.deep_view();
    if round_accepts(clues, commitment, response, ChallengeType::Clue) {
        match response.payload {
            RevealPayload::Clue(data) => {
                let r = clues[i].0;
                let c = clues[i].1;
                let v = clues[i].2;
                assert(clue_entry_ok(clues[i], data, commitment.board_commit.deep_view()));
                assert(data.clues@[i].row == r && data.clues@[i].col == c);
                lemma_first_match_found(data.clues@, r, c);
                let e = first_clue_match(data.clues@, r, c)->Some_0;
                let j = choose|j: int| 0 <= j < data.clues@.len() && #[trigger] data.clues@[j] == e;
                assert(e.row == clues[j].0 && e.col == clues[j].1);
                assert(e.mapped_value == m[r as int][c as int]);
                assert(data.mapping@[v as int] == e.mapped_value);
                assert(false);
            },
            _ => {
                assert(false);
            },
        }
    }
}

} // verus!
