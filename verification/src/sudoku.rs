//! The Sudoku generator: a structured base grid, a band/stack/row/column
//! shuffle, a digit relabelling, and a puzzle obtained by hiding cells.
//! Every step is proved to keep the solution a valid Sudoku.
use vstd::prelude::*;
use vstd::arithmetic::div_mod::{
    lemma_fundamental_div_mod, lemma_fundamental_div_mod_converse,
    lemma_mod_division_less_than_divisor,
};
use crate::grid::{
    base_cell, grid_wf, is_mapping, is_reindex, is_solution, lemma_base_cell_range,
    lemma_base_grid_valid, lemma_mapped_grid_valid, lemma_reindexed_valid, mapped_grid, puzzle_of,
    reindexed,
};
use crate::rng::shuffle;

verus! {

/// A 9x9 board held row by row.
pub type Matrix = Vec<Vec<u8>>;

/// A 9x9 board of 64-bit commitment digests (or randomness), row by row.
pub type CommitMat = Vec<Vec<u64>>;

/// A digit mapping table with slot 0 pinned to 0 and slots 1..=9 a
/// permutation of 1..=9.
pub open spec fn cast_wf(c: Seq<u8>) -> bool {
    &&& is_mapping(c)
    &&& c[0] == 0
}

/// A shuffled sequence is a reordering of what it was: same length, and the
/// same elements with no duplicates introduced or lost.
pub proof fn lemma_shuffled_perm<T>(s: Seq<T>, t: Seq<T>)
    requires
        s.to_multiset() == t.to_multiset(),
        t.no_duplicates(),
    ensures
        s.len() == t.len(),
        s.no_duplicates(),
        forall|x: T| s.contains(x) <==> t.contains(x),
{
    s.to_multiset_ensures();
    t.to_multiset_ensures();
    t.lemma_multiset_has_no_duplicates();
    assert(s.len() == s.to_multiset().len());
    assert(t.len() == t.to_multiset().len());
    assert forall|x: T| s.contains(x) <==> t.contains(x) by {
        assert(s.contains(x) <==> s.to_multiset().count(x) > 0);
        assert(t.contains(x) <==> t.to_multiset().count(x) > 0);
    }
    assert forall|x: T| s.to_multiset().contains(x) implies s.to_multiset().count(x) == 1 by {
        assert(t.to_multiset().contains(x) && t.to_multiset().count(x) == 1);
    }
    s.lemma_multiset_has_no_duplicates_conv();
}

/// Append a row to a board.
fn push_row(m: &mut Matrix, row: Vec<u8>)
    ensures
        final(m).deep_view() == old(m).deep_view().push(row@),
{
    m.push(row);
    assert(m.deep_view() =~~= old(m).deep_view().push(row@));
}

/// A row of nine zeros.
fn zero_row() -> (row: Vec<u8>)
    ensures
        row@.len() == 9,
        forall|j: int| 0 <= j < 9 ==> row@[j] == 0,
{
    let mut row: Vec<u8> = Vec::new();
    let mut c: usize = 0;
    while c < 9
        invariant
            c <= 9,
            row@.len() == c,
            forall|j: int| 0 <= j < c ==> row@[j] == 0,
        decreases 9 - c,
    {
        row.push(0);
        c = c + 1;
    }
    row
}

/// A fresh 9x9 grid of zeros.
pub fn zero_grid() -> (g: Matrix)
    ensures
        grid_wf(g.deep_view()),
        forall|r: int, c: int| 0 <= r < 9 && 0 <= c < 9 ==> g.deep_view()[r][c] == 0,
{
    let mut g: Matrix = Vec::new();
    let mut r: usize = 0;
    while r < 9
        invariant
            r <= 9,
            g.deep_view().len() == r,
            forall|i: int| 0 <= i < r ==> (#[trigger] g.deep_view()[i]).len() == 9,
            forall|i: int, j: int| 0 <= i < r && 0 <= j < 9 ==> g.deep_view()[i][j] == 0,
        decreases 9 - r,
    {
        let row = zero_row();
        push_row(&mut g, row);
        r = r + 1;
    }
    g
}

/// Write one cell of a board.
fn set_cell(m: &mut Matrix, r: usize, c: usize, v: u8)
    requires
        r < old(m)@.len(),
        c < old(m)@[r as int]@.len(),
    ensures
        final(m).deep_view() == old(m).deep_view().update(
            r as int,
            old(m).deep_view()[r as int].update(c as int, v),
        ),
{
    m[r][c] = v;
    assert(m.deep_view() =~~= old(m).deep_view().update(
        r as int,
        old(m).deep_view()[r as int].update(c as int, v),
    ));
}

/// Copy a board cell by cell.
pub fn copy_matrix(m: &Matrix) -> (r: Matrix)
    ensures
        r.deep_view() == m.deep_view(),
{
    let mut out: Matrix = Vec::new();
    let mut i: usize = 0;
    while i < m.len()
        invariant
            i <= m@.len(),
            out@.len() == i,
            forall|k: int| 0 <= k < i ==> out.deep_view()[k] == m.deep_view()[k],
        decreases m@.len() - i,
    {
        let row = copy_row(&m[i]);
        out.push(row);
        proof {
            assert(out.deep_view()[i as int] =~= m.deep_view()[i as int]);
        }
        i = i + 1;
    }
    assert(out.deep_view() =~~= m.deep_view());
    out
}

/// Copy one row.
pub fn copy_row(v: &Vec<u8>) -> (r: Vec<u8>)
    ensures
        r@ == v@,
{
    let mut out: Vec<u8> = Vec::new();
    let mut i: usize = 0;
    while i < v.len()
        invariant
            i <= v@.len(),
            out@ == v@.subrange(0, i as int),
        decreases v@.len() - i,
    {
        out.push(v[i]);
        assert(out@ =~= v@.subrange(0, i as int + 1));
        i = i + 1;
    }
    assert(out@ =~= v@);
    out
}


/// The sequence `[0, 1, 2]`.
fn three_indices() -> (v: Vec<usize>)
    ensures
        v@ =~= seq![0usize, 1, 2],
{
    let mut v: Vec<usize> = Vec::new();
    v.push(0);
    v.push(1);
    v.push(2);
    v
}

/// The digits 1 through 9 in order.
fn nine_digits() -> (v: Vec<u8>)
    ensures
        v@ =~= seq![1u8, 2, 3, 4, 5, 6, 7, 8, 9],
{
    let mut v: Vec<u8> = Vec::new();
    let mut d: u8 = 1;
    while d <= 9
        invariant
            1 <= d <= 10,
            v@.len() == d - 1,
            forall|i: int| 0 <= i < d - 1 ==> v@[i] == i + 1,
        decreases 10 - d,
    {
        v.push(d);
        d = d + 1;
    }
    assert(v@ =~= seq![1u8, 2, 3, 4, 5, 6, 7, 8, 9]);
    v
}


/// The plain view and the deep view of a board describe the same rows.
pub proof fn lemma_deep_dims_u8(m: Vec<Vec<u8>>)
    ensures
        m@.len() == m.deep_view().len(),
        forall|i: int|
            0 <= i < m@.len() ==> (#[trigger] m@[i])@ == m.deep_view()[i],
{
    assert forall|i: int| 0 <= i < m@.len() implies (#[trigger] m@[i])@ == m.deep_view()[i] by {
        assert(m.deep_view()[i] =~= m@[i]@);
    }
}

/// The plain view and the deep view of a digest matrix describe the same rows.
pub proof fn lemma_deep_dims_u64(m: Vec<Vec<u64>>)
    ensures
        m@.len() == m.deep_view().len(),
        forall|i: int|
            0 <= i < m@.len() ==> (#[trigger] m@[i])@ == m.deep_view()[i],
{
    assert forall|i: int| 0 <= i < m@.len() implies (#[trigger] m@[i])@ == m.deep_view()[i] by {
        assert(m.deep_view()[i] =~= m@[i]@);
    }
}

/// Append a row to a digest matrix.
pub fn push_digest_row(m: &mut CommitMat, row: Vec<u64>)
    ensures
        final(m).deep_view() == old(m).deep_view().push(row@),
{
    m.push(row);
    assert(m.deep_view() =~~= old(m).deep_view().push(row@));
}


/// The effective clue count: the request clamped to at least 30 and at most
/// 81, with 30 as the default.
pub open spec fn clue_target(clues: Option<usize>) -> int {
    match clues {
        Option::Some(n) => if n < 30 {
            30
        } else if n > 81 {
            81
        } else {
            n as int
        },
        Option::None => 30,
    }
}

/// The generator state: a full solution, the public puzzle derived from it,
/// and the digit-mapping table reshuffled once per proof round.
pub struct Sudoku {
    pub solution: Matrix,
    pub puzzle: Matrix,
    pub cast: Vec<u8>,
}

impl Sudoku {
    /// An empty board pair and the identity digit mapping.
    pub fn new() -> (s: Sudoku)
        ensures
            grid_wf(s.solution.deep_view()),
            grid_wf(s.puzzle.deep_view()),
            cast_wf(s.cast@),
    {
        let mut cast: Vec<u8> = Vec::new();
        let mut d: u8 = 0;
        while d <= 9
            invariant
                d <= 10,
            cast@.len() == d,
                forall|i: int| 0 <= i < d ==> cast@[i] == i as u8,
            decreases 10 - d,
        {
            cast.push(d);
            d = d + 1;
        }
        Sudoku { solution: zero_grid(), puzzle: zero_grid(), cast }
    }

    /// Fill the solution with the structured base grid, which is proved to
    /// be a valid Sudoku.
    fn base_mod(&mut self)
        ensures
            is_solution(final(self).solution.deep_view()),
            final(self).puzzle == old(self).puzzle,
            final(self).cast == old(self).cast,
    {
        let mut sol: Matrix = Vec::new();
        let mut r: usize = 0;
        while r < 9
            invariant
                r <= 9,
                sol.deep_view().len() == r,
                forall|i: int| 0 <= i < r ==> (#[trigger] sol.deep_view()[i]).len() == 9,
                forall|i: int, j: int|
                    0 <= i < r && 0 <= j < 9 ==> sol.deep_view()[i][j] == base_cell(i, j),
            decreases 9 - r,
        {
            let mut line: Vec<u8> = Vec::new();
            let mut c: usize = 0;
            while c < 9
                invariant
                    r < 9,
                    c <= 9,
                    line@.len() == c,
                    forall|j: int| 0 <= j < c ==> line@[j] == base_cell(r as int, j),
                decreases 9 - c,
            {
                proof {
                    lemma_base_cell_range(r as int, c as int);
                }
                let v: u8 = (((3 * r + r / 3 + c) % 9) + 1) as u8;
                assert(v == base_cell(r as int, c as int));
                line.push(v);
                c = c + 1;
            }
            push_row(&mut sol, line);
            r = r + 1;
        }
        proof {
            lemma_base_grid_valid(sol.deep_view());
        }
        self.solution = sol;
    }

    /// Draw a band-respecting reordering of the nine row or column indices:
    /// shuffle the three bands, then the three lines inside each band.
    fn gen_reindex() -> (idx: Vec<usize>)
        ensures
            is_reindex(idx@),
    {
        let mut bands: Vec<usize> = three_indices();
        shuffle(&mut bands);
        proof {
            lemma_shuffled_perm(bands@, seq![0usize, 1, 2]);
            assert(seq![0usize, 1, 2].no_duplicates());
            assert forall|i: int| 0 <= i < 3 implies (#[trigger] bands@[i]) < 3 by {
                assert(bands@.contains(bands@[i]));
                assert(seq![0usize, 1, 2].contains(bands@[i]));
            }
        }
        let mut idx: Vec<usize> = Vec::new();
        let mut t: usize = 0;
        while t < 3
            invariant
                t <= 3,
                bands@.len() == 3,
                bands@.no_duplicates(),
                forall|i: int| 0 <= i < 3 ==> (#[trigger] bands@[i]) < 3,
                idx@.len() == 3 * t,
                forall|i: int| 0 <= i < 3 * t ==> (#[trigger] idx@[i]) < 9,
                forall|i: int, j: int| 0 <= i < j < 3 * t ==> idx@[i] != idx@[j],
                forall|i: int| 0 <= i < 3 * t ==> (#[trigger] idx@[i]) / 3 == bands@[i / 3],
            decreases 3 - t,
        {
            let mut inner: Vec<usize> = three_indices();
            shuffle(&mut inner);
            proof {
                lemma_shuffled_perm(inner@, seq![0usize, 1, 2]);
                assert(seq![0usize, 1, 2].no_duplicates());
                assert forall|i: int| 0 <= i < 3 implies (#[trigger] inner@[i]) < 3 by {
                    assert(inner@.contains(inner@[i]));
                    assert(seq![0usize, 1, 2].contains(inner@[i]));
                }
            }
            let mut s: usize = 0;
            while s < 3
                invariant
                    t < 3,
                    s <= 3,
                    bands@.len() == 3,
                    bands@.no_duplicates(),
                    forall|i: int| 0 <= i < 3 ==> (#[trigger] bands@[i]) < 3,
                    inner@.len() == 3,
                    inner@.no_duplicates(),
                    forall|i: int| 0 <= i < 3 ==> (#[trigger] inner@[i]) < 3,
                    idx@.len() == 3 * t + s,
                    forall|i: int| 0 <= i < 3 * t + s ==> (#[trigger] idx@[i]) < 9,
                    forall|i: int, j: int| 0 <= i < j < 3 * t + s ==> idx@[i] != idx@[j],
                    forall|i: int| 0 <= i < 3 * t + s ==> (#[trigger] idx@[i]) / 3 == bands@[i / 3],
                    forall|i: int|
                        3 * t <= i < 3 * t + s ==> (#[trigger] idx@[i]) == bands@[t as int] * 3
                            + inner@[i - 3 * t],
                decreases 3 - s,
            {
                let e: usize = bands[t] * 3 + inner[s];
                proof {
                    lemma_fundamental_div_mod_converse(
                        e as int,
                        3,
                        bands@[t as int] as int,
                        inner@[s as int] as int,
                    );
                    let n = idx@.len() as int;
                    assert forall|i: int| 0 <= i < n implies idx@[i] != e by {
                        lemma_fundamental_div_mod_converse(i, 3, i / 3, i % 3);
                        if i / 3 < t as int {
                            assert(bands@[i / 3] != bands@[t as int]);
                            assert(idx@[i] / 3 == bands@[i / 3]);
                        } else {
                            assert(i / 3 == t as int);
                            assert(idx@[i] == bands@[t as int] * 3 + inner@[i - 3 * t]);
                            assert(inner@[i - 3 * t] != inner@[s as int]);
                        }
                    }
                }
                idx.push(e);
                s = s + 1;
            }
            t = t + 1;
        }
        proof {
            assert forall|i: int, j: int|
                0 <= i < 9 && 0 <= j < 9 && i / 3 == j / 3 implies (#[trigger] idx@[i]) / 3 == (
            #[trigger] idx@[j]) / 3 by {
                assert(idx@[i] / 3 == bands@[i / 3]);
                assert(idx@[j] / 3 == bands@[j / 3]);
            }
        }
        idx
    }

    /// Draw a uniformly random digit mapping: slot 0 stays 0, slots 1..=9
    /// hold a shuffled copy of 1..=9.
    fn gen_digit_map() -> (m: Vec<u8>)
        ensures
            cast_wf(m@),
    {
        let mut digits: Vec<u8> = nine_digits();
        shuffle(&mut digits);
        proof {
            lemma_shuffled_perm(digits@, seq![1u8, 2, 3, 4, 5, 6, 7, 8, 9]);
            assert(seq![1u8, 2, 3, 4, 5, 6, 7, 8, 9].no_duplicates());
            assert forall|i: int| 0 <= i < 9 implies 1 <= #[trigger] digits@[i] <= 9 by {
                assert(digits@.contains(digits@[i]));
                assert(seq![1u8, 2, 3, 4, 5, 6, 7, 8, 9].contains(digits@[i]));
            }
        }
        let mut m: Vec<u8> = Vec::new();
        m.push(0);
        let mut i: usize = 0;
        while i < 9
            invariant
                i <= 9,
                digits@.len() == 9,
                m@.len() == i + 1,
                m@[0] == 0,
                forall|d: int| 1 <= d <= i ==> m@[d] == digits@[d - 1],
            decreases 9 - i,
        {
            m.push(digits[i]);
            i = i + 1;
        }
        m
    }

    /// Shuffle the row bands, the rows inside each band, the column stacks,
    /// the columns inside each stack, and relabel the digits; then make the
    /// puzzle a copy of the solution.  All three steps preserve validity.
    fn full_mod(&mut self)
        requires
            is_solution(old(self).solution.deep_view()),
        ensures
            is_solution(final(self).solution.deep_view()),
            final(self).puzzle.deep_view() == final(self).solution.deep_view(),
            final(self).cast == old(self).cast,
    {
        let row_indices = Self::gen_reindex();
        let col_indices = Self::gen_reindex();
        let map = Self::gen_digit_map();
        let ghost g0 = self.solution.deep_view();

        let mut sol: Matrix = Vec::new();
        let mut r: usize = 0;
        while r < 9
            invariant
                r <= 9,
                is_solution(g0),
                g0 == self.solution.deep_view(),
                is_reindex(row_indices@),
                is_reindex(col_indices@),
                cast_wf(map@),
                sol.deep_view().len() == r,
                forall|i: int| 0 <= i < r ==> (#[trigger] sol.deep_view()[i]).len() == 9,
                forall|i: int, j: int|
                    0 <= i < r && 0 <= j < 9 ==> sol.deep_view()[i][j] == map@[g0[row_indices@[i]
                        as int][col_indices@[j] as int] as int],
            decreases 9 - r,
        {
            let mut line: Vec<u8> = Vec::new();
            let mut c: usize = 0;
            while c < 9
                invariant
                    r < 9,
                    c <= 9,
                    is_solution(g0),
                    g0 == self.solution.deep_view(),
                    is_reindex(row_indices@),
                    is_reindex(col_indices@),
                    cast_wf(map@),
                    line@.len() == c,
                    forall|j: int|
                        0 <= j < c ==> line@[j] == map@[g0[row_indices@[r as int] as int][
                            col_indices@[j] as int] as int],
                decreases 9 - c,
            {
                let ri = row_indices[r];
                let ci = col_indices[c];
                proof {
                    crate::grid::lemma_cell_in_range(g0, ri as int, ci as int);
                }
                let v = self.solution[ri][ci];
                line.push(map[v as usize]);
                c = c + 1;
            }
            push_row(&mut sol, line);
            r = r + 1;
        }
        proof {
            lemma_reindexed_valid(g0, row_indices@, col_indices@);
            lemma_mapped_grid_valid(reindexed(g0, row_indices@, col_indices@), map@);
            assert(sol.deep_view() =~~= mapped_grid(
                reindexed(g0, row_indices@, col_indices@),
                map@,
            ));
        }
        self.puzzle = copy_matrix(&sol);
        self.solution = sol;
    }

    /// Hide cells of the puzzle until exactly the requested number of clues
    /// is left.  The clue count is clamped to at least 30 and at most 81.
    fn gen_puzzle(&mut self, clues: Option<usize>)
        requires
            is_solution(old(self).solution.deep_view()),
        ensures
            final(self).solution == old(self).solution,
            final(self).cast == old(self).cast,
            puzzle_of(final(self).puzzle.deep_view(), final(self).solution.deep_view()),
            crate::grid::nz_grid(final(self).puzzle.deep_view()) == clue_target(clues),
    {
        let requested = match clues {
            Option::Some(n) => n,
            Option::None => 30,
        };
        let eff: usize = if requested < 30 {
            30
        } else if requested > 81 {
            81
        } else {
            requested
        };
        self.puzzle = copy_matrix(&self.solution);
        proof {
            crate::grid::lemma_nz_grid_solution(self.puzzle.deep_view());
        }

        let mut positions: Vec<usize> = Vec::new();
        let mut p: usize = 0;
        while p < 81
            invariant
                p <= 81,
                positions@.len() == p,
                forall|i: int| 0 <= i < p ==> positions@[i] == i,
            decreases 81 - p,
        {
            positions.push(p);
            p = p + 1;
        }
        let ghost ident = positions@;
        shuffle(&mut positions);
        proof {
            assert(ident.no_duplicates());
            lemma_shuffled_perm(positions@, ident);
            assert forall|i: int| 0 <= i < 81 implies (#[trigger] positions@[i]) < 81 by {
                assert(positions@.contains(positions@[i]));
                assert(ident.contains(positions@[i]));
                let w = choose|w: int| 0 <= w < 81 && ident[w] == positions@[i];
                assert(ident[w] == w);
            }
        }

        let remove: usize = 81 - eff;
        let ghost sol = self.solution.deep_view();
        let mut k: usize = 0;
        while k < remove
            invariant
                k <= remove,
                remove <= 51,
                positions@.len() == 81,
                positions@.no_duplicates(),
                forall|i: int| 0 <= i < 81 ==> (#[trigger] positions@[i]) < 81,
                is_solution(sol),
                sol == self.solution.deep_view(),
                self.solution == old(self).solution,
                self.cast == old(self).cast,
                crate::grid::grid_wf(self.puzzle.deep_view()),
                puzzle_of(self.puzzle.deep_view(), sol),
                crate::grid::nz_grid(self.puzzle.deep_view()) == 81 - k,
                forall|j: int|
                    k <= j < 81 ==> self.puzzle.deep_view()[(#[trigger] positions@[j]) as int / 9][
                        positions@[j] as int % 9] == sol[positions@[j] as int / 9][positions@[j]
                        as int % 9],
            decreases remove - k,
        {
            let pos = positions[k];
            let row = pos / 9;
            let col = pos % 9;
            proof {
                lemma_fundamental_div_mod(pos as int, 9);
                lemma_mod_division_less_than_divisor(pos as int, 9);
                assert(self.puzzle.deep_view()[row as int].len() == 9);
                assert(self.puzzle@[row as int]@ == self.puzzle.deep_view()[row as int]);
                crate::grid::lemma_cell_in_range(sol, row as int, col as int);
                assert(self.puzzle.deep_view()[row as int][col as int] != 0);
            }
            let ghost before = self.puzzle.deep_view();
            set_cell(&mut self.puzzle, row, col, 0);
            proof {
                crate::grid::lemma_nz_grid_zero_cell(before, row as int, col as int);
                assert forall|r: int, c: int|
                    0 <= r < 9 && 0 <= c < 9 implies (self.puzzle.deep_view()[r][c] == 0
                    || self.puzzle.deep_view()[r][c] == sol[r][c]) by {
                    if r != row as int || c != col as int {
                        assert(self.puzzle.deep_view()[r][c] == before[r][c]);
                    }
                }
                assert forall|j: int|
                    k + 1 <= j < 81 implies self.puzzle.deep_view()[(#[trigger] positions@[j])
                    as int / 9][positions@[j] as int % 9] == sol[positions@[j] as int / 9][
                    positions@[j] as int % 9] by {
                    let q = positions@[j] as int;
                    lemma_fundamental_div_mod(q, 9);
                    lemma_mod_division_less_than_divisor(q, 9);
                    assert(positions@[j] != positions@[k as int]);
                    if q / 9 == row as int && q % 9 == col as int {
                        assert(q == pos as int);
                        assert(false);
                    }
                    assert(self.puzzle.deep_view()[q / 9][q % 9] == before[q / 9][q % 9]);
                }
            }
            k = k + 1;
        }
    }

    /// Build a fresh puzzle: base grid, validity-preserving shuffle, digit
    /// relabelling, then hide cells.
    pub fn init(&mut self, clues: Option<usize>)
        ensures
            is_solution(final(self).solution.deep_view()),
            puzzle_of(final(self).puzzle.deep_view(), final(self).solution.deep_view()),
            crate::grid::nz_grid(final(self).puzzle.deep_view()) == clue_target(clues),
            final(self).cast == old(self).cast,
    {
        self.base_mod();
        self.full_mod();
        self.gen_puzzle(clues);
    }

    /// Reshuffle the digit mapping (slot 0 stays 0) and return a copy of it.
    pub fn gen_cast(&mut self) -> (r: Vec<u8>)
        requires
            cast_wf(old(self).cast@),
        ensures
            cast_wf(final(self).cast@),
            r@ == final(self).cast@,
            final(self).solution == old(self).solution,
            final(self).puzzle == old(self).puzzle,
    {
        let mut tail: Vec<u8> = Vec::new();
        let mut i: usize = 1;
        while i < 10
            invariant
                1 <= i <= 10,
                old(self).cast@.len() == 10,
                self == old(self),
                tail@.len() == i - 1,
                forall|j: int| 0 <= j < i - 1 ==> tail@[j] == self.cast@[j + 1],
            decreases 10 - i,
        {
            tail.push(self.cast[i]);
            i = i + 1;
        }
        let ghost told = tail@;
        shuffle(&mut tail);
        proof {
            assert(told.no_duplicates());
            lemma_shuffled_perm(tail@, told);
            assert forall|j: int| 0 <= j < 9 implies 1 <= #[trigger] tail@[j] <= 9 by {
                assert(tail@.contains(tail@[j]));
                assert(told.contains(tail@[j]));
            }
        }
        let mut cast: Vec<u8> = Vec::new();
        cast.push(0);
        let mut i: usize = 0;
        while i < 9
            invariant
                i <= 9,
                tail@.len() == 9,
                cast@.len() == i + 1,
                cast@[0] == 0,
                forall|d: int| 1 <= d <= i ==> cast@[d] == tail@[d - 1],
            decreases 9 - i,
        {
            cast.push(tail[i]);
            i = i + 1;
        }
        self.cast = cast;
        copy_row(&self.cast)
    }

    pub fn get_solution(&self) -> (r: Matrix)
        ensures
            r.deep_view() == self.solution.deep_view(),
    {
        copy_matrix(&self.solution)
    }

    pub fn get_puzzle(&self) -> (r: Matrix)
        ensures
            r.deep_view() == self.puzzle.deep_view(),
    {
        copy_matrix(&self.puzzle)
    }

    pub fn get_cast(&self) -> (r: Vec<u8>)
        ensures
            r@ == self.cast@,
    {
        copy_row(&self.cast)
    }
}

} // verus!
