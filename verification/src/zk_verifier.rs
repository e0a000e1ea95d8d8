//! The verifier's side of the proof protocol: the clue set of the public
//! puzzle, and the per-round checks of revealed rows, columns, boxes and
//! clues against the round's commitments.  Every check function returns
//! exactly the acceptance predicate its contract states.
use vstd::prelude::*;
use crate::challenge::{challenge_wf, ChallengeType};
use crate::commit::{v_a_value, value_verifies};
use crate::grid::line_ok;
use crate::messages::{
    BoxReveal, ClueResponse, ClueReveal, CommitmentMessage, LineReveal, ResponseMessage,
    RevealPayload,
};
use crate::sudoku::{lemma_deep_dims_u64, lemma_deep_dims_u8, zero_grid, CommitMat, Matrix};
use vstd::string::StringExecFns;

verus! {

/// A 9x9 matrix of digests.
pub open spec fn commit_mat_wf(m: Seq<Seq<u64>>) -> bool {
    &&& m.len() == 9
    &&& forall|r: int| 0 <= r < 9 ==> (#[trigger] m[r]).len() == 9
}

/// Every clue coordinate lies on the board and its digit is nonzero.
pub open spec fn clues_wf(cl: Seq<(usize, usize, u8)>) -> bool {
    forall|i: int|
        0 <= i < cl.len() ==> (#[trigger] cl[i]).0 < 9 && cl[i].1 < 9 && cl[i].2 != 0
}

/// `cl` lists exactly the nonzero cells of `p`, in row-major order.
pub open spec fn clues_listed(p: Seq<Seq<u8>>, cl: Seq<(usize, usize, u8)>) -> bool {
    &&& forall|i: int|
        0 <= i < cl.len() ==> (#[trigger] cl[i]).0 < 9 && cl[i].1 < 9 && cl[i].2 != 0 && p[cl[i].0
            as int][cl[i].1 as int] == cl[i].2
    &&& forall|r: int, c: int|
        0 <= r < 9 && 0 <= c < 9 && p[r][c] != 0 ==> exists|i: int|
            0 <= i < cl.len() && #[trigger] cl[i] == (r as usize, c as usize, p[r][c])
    &&& forall|i: int, j: int|
        0 <= i < j < cl.len() ==> (cl[i].0 as int) * 9 + cl[i].1 < (cl[j].0 as int) * 9 + cl[j].1
}

/// List the nonzero cells of a board with their digits, row by row.
pub fn collect_clue_cells(puzzle: &Matrix) -> (cl: Vec<(usize, usize, u8)>)
    requires
        crate::grid::grid_wf(puzzle.deep_view()),
    ensures
        clues_listed(puzzle.deep_view(), cl@),
        clues_wf(cl@),
{
    let ghost p = puzzle.deep_view();
    let mut cl: Vec<(usize, usize, u8)> = Vec::new();
    let mut row: usize = 0;
    while row < 9
        invariant
            row <= 9,
            crate::grid::grid_wf(p),
            p == puzzle.deep_view(),
            forall|i: int|
                0 <= i < cl@.len() ==> (#[trigger] cl@[i]).0 < row && cl@[i].1 < 9 && cl@[i].2 != 0
                    && p[cl@[i].0 as int][cl@[i].1 as int] == cl@[i].2,
            forall|r: int, c: int|
                0 <= r < row && 0 <= c < 9 && p[r][c] != 0 ==> exists|i: int|
                    0 <= i < cl@.len() && #[trigger] cl@[i] == (r as usize, c as usize, p[r][c]),
            forall|i: int, j: int|
                0 <= i < j < cl@.len() ==> (cl@[i].0 as int) * 9 + cl@[i].1 < (cl@[j].0 as int) * 9
                    + cl@[j].1,
        decreases 9 - row,
    {
        let mut col: usize = 0;
        while col < 9
            invariant
                row < 9,
                col <= 9,
                crate::grid::grid_wf(p),
                p == puzzle.deep_view(),
                forall|i: int|
                    0 <= i < cl@.len() ==> ((#[trigger] cl@[i]).0 < row || (cl@[i].0 == row
                        && cl@[i].1 < col)) && cl@[i].0 < 9 && cl@[i].1 < 9 && cl@[i].2 != 0
                        && p[cl@[i].0 as int][cl@[i].1 as int] == cl@[i].2,
                forall|r: int, c: int|
                    0 <= r < 9 && 0 <= c < 9 && (r < row || (r == row && c < col)) && p[r][c] != 0
                        ==> exists|i: int|
                        0 <= i < cl@.len() && #[trigger] cl@[i] == (r as usize, c as usize, p[r][c]),
                forall|i: int, j: int|
                    0 <= i < j < cl@.len() ==> (cl@[i].0 as int) * 9 + cl@[i].1 < (cl@[j].0 as int)
                        * 9 + cl@[j].1,
            decreases 9 - col,
        {
            proof {
                lemma_deep_dims_u8(*puzzle);
            }
            let v = puzzle[row][col];
            let ghost pre = cl@;
            if v != 0 {
                cl.push((row, col, v));
            }
            proof {
                assert forall|r: int, c: int|
                    0 <= r < 9 && 0 <= c < 9 && (r < row || (r == row && c < col + 1)) && p[r][c]
                        != 0 implies exists|i: int|
                    0 <= i < cl@.len() && #[trigger] cl@[i] == (r as usize, c as usize, p[r][c]) by {
                    if r == row && c == col {
                        assert(cl@[pre.len() as int] == (r as usize, c as usize, p[r][c]));
                    } else {
                        let i = choose|i: int|
                            0 <= i < pre.len() && #[trigger] pre[i] == (
                                r as usize,
                                c as usize,
                                p[r][c],
                            );
                        assert(cl@[i] == (r as usize, c as usize, p[r][c]));
                    }
                }
            }
            col = col + 1;
        }
        row = row + 1;
    }
    cl
}

/// The revealed line is row `idx`: right index and shape, a valid Sudoku
/// line, and every cell verifying against the committed digest.
pub open spec fn row_reveal_ok(idx: int, reveal: LineReveal, board: Seq<Seq<u64>>) -> bool {
    &&& reveal.index == idx
    &&& reveal.values@.len() == 9
    &&& reveal.randomness@.len() == 9
    &&& line_ok(reveal.values@)
    &&& forall|c: int|
        0 <= c < 9 ==> value_verifies(reveal.values@[c], reveal.randomness@[c], #[trigger] board[
            idx][c])
}

/// The revealed line is column `idx`.
pub open spec fn col_reveal_ok(idx: int, reveal: LineReveal, board: Seq<Seq<u64>>) -> bool {
    &&& reveal.index == idx
    &&& reveal.values@.len() == 9
    &&& reveal.randomness@.len() == 9
    &&& line_ok(reveal.values@)
    &&& forall|r: int|
        0 <= r < 9 ==> value_verifies(reveal.values@[r], reveal.randomness@[r], #[trigger] board[
            r][idx])
}

/// The nine cells of a revealed box, read row by row.
pub open spec fn box_values(reveal: BoxReveal) -> Seq<u8> {
    Seq::new(9, |k: int| reveal.values.deep_view()[k / 3][k % 3])
}

/// The revealed 3x3 block is box `idx`: right index and shape, a valid
/// Sudoku line when flattened, and every cell verifying against the
/// committed digest at its board position.
pub open spec fn box_reveal_ok(idx: int, reveal: BoxReveal, board: Seq<Seq<u64>>) -> bool {
    &&& reveal.index == idx
    &&& reveal.values.deep_view().len() == 3
    &&& reveal.randomness.deep_view().len() == 3
    &&& forall|i: int| 0 <= i < 3 ==> (#[trigger] reveal.values.deep_view()[i]).len() == 3
    &&& forall|i: int| 0 <= i < 3 ==> (#[trigger] reveal.randomness.deep_view()[i]).len() == 3
    &&& line_ok(box_values(reveal))
    &&& forall|i: int, j: int|
        0 <= i < 3 && 0 <= j < 3 ==> value_verifies(
            reveal.values.deep_view()[i][j],
            reveal.randomness.deep_view()[i][j],
            board[(idx / 3) * 3 + i][(idx % 3) * 3 + j],
        )
}

/// The first entry of `entries` that opens cell `(r, c)`, if any.
pub open spec fn first_clue_match(entries: Seq<ClueReveal>, r: usize, c: usize) -> Option<
    ClueReveal,
>
    decreases entries.len(),
{
    if entries.len() == 0 {
        Option::None
    } else if entries[0].row == r && entries[0].col == c {
        Option::Some(entries[0])
    } else {
        first_clue_match(entries.drop_first(), r, c)
    }
}

/// One public clue `(r, c, v)` is answered: some entry opens the cell, the
/// revealed mapping sends `v` to that entry's value, and the entry verifies
/// against the board commitment at `(r, c)`.
pub open spec fn clue_entry_ok(
    clue: (usize, usize, u8),
    reveal: ClueResponse,
    board: Seq<Seq<u64>>,
) -> bool {
    match first_clue_match(reveal.clues@, clue.0, clue.1) {
        Option::None => false,
        Option::Some(e) => {
            &&& (clue.2 as int) < reveal.mapping@.len()
            &&& reveal.mapping@[clue.2 as int] == e.mapped_value
            &&& value_verifies(e.mapped_value, e.randomness, board[clue.0 as int][clue.1 as int])
        },
    }
}

/// The whole clue response is accepted: the mapping reveal has the committed
/// shape and every slot verifies, and every public clue is answered.
pub open spec fn clue_response_ok(
    clues: Seq<(usize, usize, u8)>,
    reveal: ClueResponse,
    board: Seq<Seq<u64>>,
    mapc: Seq<u64>,
) -> bool {
    &&& reveal.mapping@.len() == mapc.len()
    &&& reveal.mapping_randomness@.len() == mapc.len()
    &&& forall|i: int|
        0 <= i < mapc.len() ==> value_verifies(
            reveal.mapping@[i],
            reveal.mapping_randomness@[i],
            #[trigger] mapc[i],
        )
    &&& forall|i: int| 0 <= i < clues.len() ==> clue_entry_ok(#[trigger] clues[i], reveal, board)
}

/// The round's full acceptance predicate: matching round numbers, a
/// well-shaped board commitment, and the reveal matching the challenge.
pub open spec fn round_accepts(
    clues: Seq<(usize, usize, u8)>,
    commitment: CommitmentMessage,
    response: ResponseMessage,
    challenge: ChallengeType,
) -> bool {
    &&& response.round == commitment.round
    &&& commit_mat_wf(commitment.board_commit.deep_view())
    &&& match (challenge, response.payload) {
        (ChallengeType::Row(idx), RevealPayload::Row(line)) => row_reveal_ok(
            idx as int,
            line,
            commitment.board_commit.deep_view(),
        ),
        (ChallengeType::Col(idx), RevealPayload::Col(line)) => col_reveal_ok(
            idx as int,
            line,
            commitment.board_commit.deep_view(),
        ),
        (ChallengeType::Box(idx), RevealPayload::Box(cell)) => box_reveal_ok(
            idx as int,
            cell,
            commitment.board_commit.deep_view(),
        ),
        (ChallengeType::Clue, RevealPayload::Clue(data)) => clue_response_ok(
            clues,
            data,
            commitment.board_commit.deep_view(),
            commitment.mapping_commit@,
        ),
        _ => false,
    }
}

/// The verifier's session state: listening port, round count, the public
/// puzzle and its clue set.
pub struct Verifier {
    pub port: String,
    pub rounds: usize,
    pub puzzle: Matrix,
    pub clues: Vec<(usize, usize, u8)>,
}

impl Verifier {
    /// A verifier with the given port and round count, or their defaults.
    pub fn new(port_: Option<String>, rounds_: Option<usize>) -> (v: Verifier)
        ensures
            v.rounds == match rounds_ {
                Option::Some(n) => n,
                Option::None => 10usize,
            },
            crate::grid::grid_wf(v.puzzle.deep_view()),
            v.clues@.len() == 0,
    {
        let port = match port_ {
            Option::Some(p) => p,
            Option::None => String::from_str("8899"),
        };
        let rounds = match rounds_ {
            Option::Some(n) => n,
            Option::None => 10,
        };
        Verifier { port, rounds, puzzle: zero_grid(), clues: Vec::new() }
    }

    /// The clue set of the stored puzzle.
    pub fn collect_clues(&self) -> (cl: Vec<(usize, usize, u8)>)
        requires
            crate::grid::grid_wf(self.puzzle.deep_view()),
        ensures
            clues_listed(self.puzzle.deep_view(), cl@),
            clues_wf(cl@),
    {
        collect_clue_cells(&self.puzzle)
    }

    /// True exactly when the nine values are a permutation of 1..=9.
    pub fn is_1_9(values: &Vec<u8>) -> (b: bool)
        ensures
            b == line_ok(values@),
    {
        if values.len() != 9 {
            return false;
        }
        let mut seen: Vec<bool> = Vec::new();
        let mut d: usize = 0;
        while d < 10
            invariant
                d <= 10,
                seen@.len() == d,
                forall|k: int| 0 <= k < d ==> seen@[k] == false,
            decreases 10 - d,
        {
            seen.push(false);
            d = d + 1;
        }
        let mut i: usize = 0;
        while i < 9
            invariant
                i <= 9,
                values@.len() == 9,
                seen@.len() == 10,
                forall|j: int| 0 <= j < i ==> 1 <= #[trigger] values@[j] <= 9,
                forall|j1: int, j2: int| 0 <= j1 < j2 < i ==> values@[j1] != values@[j2],
                forall|v: int|
                    1 <= v <= 9 ==> (seen@[v] <==> exists|j: int|
                        0 <= j < i && #[trigger] values@[j] == v),
            decreases 9 - i,
        {
            let v = values[i];
            if v < 1 || v > 9 {
                return false;
            }
            if seen[v as usize] {
                proof {
                    let j = choose|j: int| 0 <= j < i && values@[j] == v as int;
                    assert(values@[j] == values@[i as int]);
                }
                return false;
            }
            seen[v as usize] = true;
            i = i + 1;
        }
        true
    }

    /// Check a revealed row against the board commitment.
    pub fn verify_row(&self, idx: usize, reveal: &LineReveal, board_commit: &CommitMat) -> (res: (
        bool,
        Option<String>,
    ))
        requires
            idx < 9,
            commit_mat_wf(board_commit.deep_view()),
        ensures
            res.0 == row_reveal_ok(idx as int, *reveal, board_commit.deep_view()),
            res.0 <==> res.1 is None,
    {
        if reveal.index != idx || reveal.values.len() != 9 || reveal.randomness.len() != 9 {
            return (false, Option::Some(String::from_str("Row reveal malformed")));
        }
        if !Self::is_1_9(&reveal.values) {
            return (false, Option::Some(String::from_str("Row violates Sudoku constraint")));
        }
        let mut col: usize = 0;
        while col < 9
            invariant
                col <= 9,
                idx < 9,
                reveal.values@.len() == 9,
                reveal.randomness@.len() == 9,
                commit_mat_wf(board_commit.deep_view()),
                forall|c: int|
                    0 <= c < col ==> value_verifies(
                        reveal.values@[c],
                        reveal.randomness@[c],
                        #[trigger] board_commit.deep_view()[idx as int][c],
                    ),
            decreases 9 - col,
        {
            proof {
                lemma_deep_dims_u64(*board_commit);
            }
            if !v_a_value(reveal.values[col], reveal.randomness[col], board_commit[idx][col]) {
                return (false, Option::Some(String::from_str("Row commitment mismatch")));
            }
            col = col + 1;
        }
        (true, Option::None)
    }

    /// Check a revealed column against the board commitment.
    pub fn verify_column(&self, idx: usize, reveal: &LineReveal, board_commit: &CommitMat) -> (res: (
        bool,
        Option<String>,
    ))
        requires
            idx < 9,
            commit_mat_wf(board_commit.deep_view()),
        ensures
            res.0 == col_reveal_ok(idx as int, *reveal, board_commit.deep_view()),
            res.0 <==> res.1 is None,
    {
        if reveal.index != idx || reveal.values.len() != 9 || reveal.randomness.len() != 9 {
            return (false, Option::Some(String::from_str("Column reveal malformed")));
        }
        if !Self::is_1_9(&reveal.values) {
            return (false, Option::Some(String::from_str("Column violates Sudoku constraint")));
        }
        let mut row: usize = 0;
        while row < 9
            invariant
                row <= 9,
                idx < 9,
                reveal.values@.len() == 9,
                reveal.randomness@.len() == 9,
                commit_mat_wf(board_commit.deep_view()),
                forall|r: int|
                    0 <= r < row ==> value_verifies(
                        reveal.values@[r],
                        reveal.randomness@[r],
                        #[trigger] board_commit.deep_view()[r][idx as int],
                    ),
            decreases 9 - row,
        {
            proof {
                lemma_deep_dims_u64(*board_commit);
            }
            if !v_a_value(reveal.values[row], reveal.randomness[row], board_commit[row][idx]) {
                return (false, Option::Some(String::from_str("Column commitment mismatch")));
            }
            row = row + 1;
        }
        (true, Option::None)
    }

    /// Check a revealed box against the board commitment.
    pub fn verify_box(&self, idx: usize, reveal: &BoxReveal, board_commit: &CommitMat) -> (res: (
        bool,
        Option<String>,
    ))
        requires
            idx < 9,
            commit_mat_wf(board_commit.deep_view()),
        ensures
            res.0 == box_reveal_ok(idx as int, *reveal, board_commit.deep_view()),
            res.0 <==> res.1 is None,
    {
        if reveal.index != idx {
            return (false, Option::Some(String::from_str("Box index mismatch")));
        }
        if reveal.values.len() != 3 || reveal.randomness.len() != 3 {
            return (false, Option::Some(String::from_str("Box shape invalid")));
        }
        proof {
            lemma_deep_dims_u8(reveal.values);
            lemma_deep_dims_u64(reveal.randomness);
        }
        let mut values: Vec<u8> = Vec::new();
        let mut row: usize = 0;
        while row < 3
            invariant
                row <= 3,
                reveal.values.deep_view().len() == 3,
                reveal.randomness.deep_view().len() == 3,
                forall|i: int| 0 <= i < row ==> (#[trigger] reveal.values.deep_view()[i]).len() == 3,
                forall|i: int|
                    0 <= i < row ==> (#[trigger] reveal.randomness.deep_view()[i]).len() == 3,
                values@.len() == 3 * row,
                forall|k: int|
                    0 <= k < 3 * row ==> values@[k] == reveal.values.deep_view()[k / 3][k % 3],
            decreases 3 - row,
        {
            proof {
                lemma_deep_dims_u8(reveal.values);
                lemma_deep_dims_u64(reveal.randomness);
            }
            if reveal.values[row].len() != 3 || reveal.randomness[row].len() != 3 {
                return (false, Option::Some(String::from_str("Box shape invalid")));
            }
            let mut col: usize = 0;
            while col < 3
                invariant
                    row < 3,
                    col <= 3,
                    reveal.values.deep_view().len() == 3,
                    reveal.values.deep_view()[row as int].len() == 3,
                    values@.len() == 3 * row + col,
                    forall|k: int|
                        0 <= k < 3 * row + col ==> values@[k] == reveal.values.deep_view()[k / 3][k
                            % 3],
                decreases 3 - col,
            {
                proof {
                    lemma_deep_dims_u8(reveal.values);
                    vstd::arithmetic::div_mod::lemma_fundamental_div_mod_converse(
                        3 * (row as int) + col as int,
                        3,
                        row as int,
                        col as int,
                    );
                }
                values.push(reveal.values[row][col]);
                col = col + 1;
            }
            row = row + 1;
        }
        if !Self::is_1_9(&values) {
            proof {
                assert(values@ =~= box_values(*reveal));
            }
            return (false, Option::Some(String::from_str("Box violates Sudoku constraint")));
        }
        proof {
            assert(values@ =~= box_values(*reveal));
        }

        let start_row = (idx / 3) * 3;
        let start_col = (idx % 3) * 3;
        let mut i: usize = 0;
        while i < 3
            invariant
                i <= 3,
                idx < 9,
                start_row == (idx as int / 3) * 3,
                start_col == (idx as int % 3) * 3,
                start_row <= 6,
                start_col <= 6,
                commit_mat_wf(board_commit.deep_view()),
                reveal.values.deep_view().len() == 3,
                reveal.randomness.deep_view().len() == 3,
                forall|a: int| 0 <= a < 3 ==> (#[trigger] reveal.values.deep_view()[a]).len() == 3,
                forall|a: int|
                    0 <= a < 3 ==> (#[trigger] reveal.randomness.deep_view()[a]).len() == 3,
                forall|a: int, b: int|
                    0 <= a < i && 0 <= b < 3 ==> value_verifies(
                        reveal.values.deep_view()[a][b],
                        reveal.randomness.deep_view()[a][b],
                        board_commit.deep_view()[(idx as int / 3) * 3 + a][(idx as int % 3) * 3
                            + b],
                    ),
            decreases 3 - i,
        {
            let mut j: usize = 0;
            while j < 3
                invariant
                    i < 3,
                    j <= 3,
                    idx < 9,
                    start_row == (idx as int / 3) * 3,
                    start_col == (idx as int % 3) * 3,
                    start_row <= 6,
                    start_col <= 6,
                    commit_mat_wf(board_commit.deep_view()),
                    reveal.values.deep_view().len() == 3,
                    reveal.randomness.deep_view().len() == 3,
                    forall|a: int|
                        0 <= a < 3 ==> (#[trigger] reveal.values.deep_view()[a]).len() == 3,
                    forall|a: int|
                        0 <= a < 3 ==> (#[trigger] reveal.randomness.deep_view()[a]).len() == 3,
                    forall|a: int, b: int|
                        0 <= a < i && 0 <= b < 3 ==> value_verifies(
                            reveal.values.deep_view()[a][b],
                            reveal.randomness.deep_view()[a][b],
                            board_commit.deep_view()[(idx as int / 3) * 3 + a][(idx as int % 3) * 3
                                + b],
                        ),
                    forall|b: int|
                        0 <= b < j ==> value_verifies(
                            reveal.values.deep_view()[i as int][b],
                            reveal.randomness.deep_view()[i as int][b],
                            board_commit.deep_view()[(idx as int / 3) * 3 + i][(idx as int % 3) * 3
                                + b],
                        ),
                decreases 3 - j,
            {
                proof {
                    lemma_deep_dims_u8(reveal.values);
                    lemma_deep_dims_u64(reveal.randomness);
                    lemma_deep_dims_u64(*board_commit);
                }
                if !v_a_value(
                    reveal.values[i][j],
                    reveal.randomness[i][j],
                    board_commit[start_row + i][start_col + j],
                ) {
                    return (false, Option::Some(String::from_str("Box commitment mismatch")));
                }
                j = j + 1;
            }
            i = i + 1;
        }
        (true, Option::None)
    }

    /// Check a clue response against both commitments and the stored clue
    /// set.
    pub fn verify_clues(
        &self,
        reveal: &ClueResponse,
        board_commit: &CommitMat,
        mapping_commit: &Vec<u64>,
    ) -> (res: (bool, Option<String>))
        requires
            commit_mat_wf(board_commit.deep_view()),
            clues_wf(self.clues@),
        ensures
            res.0 == clue_response_ok(
                self.clues@,
                *reveal,
                board_commit.deep_view(),
                mapping_commit@,
            ),
            res.0 <==> res.1 is None,
    {
        if reveal.mapping.len() != mapping_commit.len() || reveal.mapping_randomness.len()
            != mapping_commit.len() {
            return (false, Option::Some(String::from_str("Mapping reveal malformed")));
        }
        let mut i: usize = 0;
        while i < mapping_commit.len()
            invariant
                i <= mapping_commit@.len(),
                reveal.mapping@.len() == mapping_commit@.len(),
                reveal.mapping_randomness@.len() == mapping_commit@.len(),
                forall|j: int|
                    0 <= j < i ==> value_verifies(
                        reveal.mapping@[j],
                        reveal.mapping_randomness@[j],
                        #[trigger] mapping_commit@[j],
                    ),
            decreases mapping_commit@.len() - i,
        {
            if !v_a_value(reveal.mapping[i], reveal.mapping_randomness[i], mapping_commit[i]) {
                return (false, Option::Some(String::from_str("Mapping commitment mismatch")));
            }
            i = i + 1;
        }

        let mut k: usize = 0;
        while k < self.clues.len()
            invariant
                k <= self.clues@.len(),
                clues_wf(self.clues@),
                commit_mat_wf(board_commit.deep_view()),
                reveal.mapping@.len() == mapping_commit@.len(),
                forall|j: int|
                    0 <= j < k ==> clue_entry_ok(
                        #[trigger] self.clues@[j],
                        *reveal,
                        board_commit.deep_view(),
                    ),
            decreases self.clues@.len() - k,
        {
            let (row, col, orig_val) = self.clues[k];
            let found = find_clue(&reveal.clues, row, col);
            match found {
                Option::None => {
                    return (false, Option::Some(String::from_str("Missing clue reveal")));
                },
                Option::Some(e) => {
                    if (orig_val as usize) >= reveal.mapping.len() {
                        return (
                            false,
                            Option::Some(String::from_str("Clue mapping inconsistent")),
                        );
                    }
                    let mapped = reveal.mapping[orig_val as usize];
                    if mapped != e.mapped_value {
                        return (
                            false,
                            Option::Some(String::from_str("Clue mapping inconsistent")),
                        );
                    }
                    proof {
                        lemma_deep_dims_u64(*board_commit);
                    }
                    if !v_a_value(e.mapped_value, e.randomness, board_commit[row][col]) {
                        return (false, Option::Some(String::from_str("Clue commitment mismatch")));
                    }
                },
            }
            k = k + 1;
        }
        (true, Option::None)
    }

    /// Judge one round: the response must answer this commitment, the board
    /// commitment must be a 9x9 matrix, and the reveal must match the
    /// challenge and verify.
    pub fn verify_round(
        &self,
        commitment: &CommitmentMessage,
        response: &ResponseMessage,
        challenge: ChallengeType,
    ) -> (res: (bool, Option<String>))
        requires
            challenge_wf(challenge, 9),
            clues_wf(self.clues@),
        ensures
            res.0 == round_accepts(self.clues@, *commitment, *response, challenge),
            res.0 <==> res.1 is None,
    {
        if response.round != commitment.round {
            return (false, Option::Some(String::from_str("Response round mismatch")));
        }
        if !commit_shape_ok(&commitment.board_commit) {
            return (false, Option::Some(String::from_str("Commitment malformed")));
        }
        match (challenge, &response.payload) {
            (ChallengeType::Row(idx), RevealPayload::Row(line)) => self.verify_row(
                idx,
                line,
                &commitment.board_commit,
            ),
            (ChallengeType::Col(idx), RevealPayload::Col(line)) => self.verify_column(
                idx,
                line,
                &commitment.board_commit,
            ),
            (ChallengeType::Box(idx), RevealPayload::Box(cell)) => self.verify_box(
                idx,
                cell,
                &commitment.board_commit,
            ),
            (ChallengeType::Clue, RevealPayload::Clue(data)) => self.verify_clues(
                data,
                &commitment.board_commit,
                &commitment.mapping_commit,
            ),
            _ => (
                false,
                Option::Some(String::from_str("Challenge/response type mismatch")),
            ),
        }
    }
}

/// True exactly when the digest matrix is 9x9.
pub fn commit_shape_ok(m: &CommitMat) -> (b: bool)
    ensures
        b == commit_mat_wf(m.deep_view()),
{
    proof {
        lemma_deep_dims_u64(*m);
    }
    if m.len() != 9 {
        return false;
    }
    let mut i: usize = 0;
    while i < 9
        invariant
            i <= 9,
            m.deep_view().len() == 9,
            forall|j: int| 0 <= j < i ==> (#[trigger] m.deep_view()[j]).len() == 9,
        decreases 9 - i,
    {
        proof {
            lemma_deep_dims_u64(*m);
        }
        if m[i].len() != 9 {
            return false;
        }
        i = i + 1;
    }
    true
}

/// Find the first entry that opens cell `(r, c)`.
pub fn find_clue(entries: &Vec<ClueReveal>, r: usize, c: usize) -> (res: Option<ClueReveal>)
    ensures
        res == first_clue_match(entries@, r, c),
{
    proof {
        assert(entries@.skip(0) =~= entries@);
    }
    let mut i: usize = 0;
    while i < entries.len()
        invariant
            i <= entries@.len(),
            first_clue_match(entries@, r, c) == first_clue_match(entries@.skip(i as int), r, c),
        decreases entries@.len() - i,
    {
        let e = &entries[i];
        proof {
            assert(entries@.skip(i as int).len() > 0);
            assert(entries@.skip(i as int)[0] == entries@[i as int]);
            assert(entries@.skip(i as int).drop_first() =~= entries@.skip(i as int + 1));
        }
        if e.row == r && e.col == c {
            return Option::Some(ClueReveal {
                row: e.row,
                col: e.col,
                mapped_value: e.mapped_value,
                randomness: e.randomness,
            });
        }
        proof {
            assert(first_clue_match(entries@.skip(i as int), r, c) == first_clue_match(
                entries@.skip(i as int + 1),
                r,
                c,
            ));
        }
        i = i + 1;
    }
    proof {
        assert(entries@.skip(entries@.len() as int).len() == 0);
        assert(first_clue_match(entries@.skip(entries@.len() as int), r, c) is None);
    }
    Option::None
}

} // verus!
