//! The mathematical model of a Sudoku board: well-formed 9x9 grids, validity
//! of rows, columns and boxes, digit mappings, and the two facts the
//! generator and the proof protocol rest on — a structured base grid is a
//! valid solution, and band-respecting reindexings and digit relabellings
//! preserve validity.
use vstd::prelude::*;
use vstd::arithmetic::div_mod::{
    lemma_fundamental_div_mod, lemma_fundamental_div_mod_converse,
    lemma_mod_division_less_than_divisor, lemma_mod_multiples_vanish,
};

verus! {

/// A 9x9 grid of digits.
pub open spec fn grid_wf(g: Seq<Seq<u8>>) -> bool {
    &&& g.len() == 9
    &&& forall|r: int| 0 <= r < 9 ==> (#[trigger] g[r]).len() == 9
}

/// Nine cells that hold each of the digits 1..=9 exactly once: all in range
/// and pairwise distinct.
pub open spec fn line_ok(s: Seq<u8>) -> bool {
    &&& s.len() == 9
    &&& forall|i: int| 0 <= i < 9 ==> 1 <= #[trigger] s[i] <= 9
    &&& forall|i: int, j: int| 0 <= i < j < 9 ==> s[i] != s[j]
}

pub open spec fn row_seq(g: Seq<Seq<u8>>, r: int) -> Seq<u8> {
    g[r]
}

pub open spec fn col_seq(g: Seq<Seq<u8>>, c: int) -> Seq<u8> {
    Seq::new(9, |r: int| g[r][c])
}

/// Box `b` reads its nine cells row by row from the 3x3 block whose corner
/// is at `(3 * (b / 3), 3 * (b % 3))`.
pub open spec fn box_seq(g: Seq<Seq<u8>>, b: int) -> Seq<u8> {
    Seq::new(9, |k: int| g[3 * (b / 3) + k / 3][3 * (b % 3) + k % 3])
}

/// A full, valid Sudoku solution: every row, column and box holds 1..=9.
pub open spec fn is_solution(g: Seq<Seq<u8>>) -> bool {
    &&& grid_wf(g)
    &&& forall|k: int| 0 <= k < 9 ==> line_ok(#[trigger] row_seq(g, k))
    &&& forall|k: int| 0 <= k < 9 ==> line_ok(#[trigger] col_seq(g, k))
    &&& forall|k: int| 0 <= k < 9 ==> line_ok(#[trigger] box_seq(g, k))
}

/// A digit mapping: a length-10 table (index 0 unused) that permutes 1..=9.
pub open spec fn is_mapping(m: Seq<u8>) -> bool {
    &&& m.len() == 10
    &&& forall|d: int| 1 <= d <= 9 ==> 1 <= #[trigger] m[d] <= 9
    &&& forall|d: int, e: int| 1 <= d < e <= 9 ==> m[d] != m[e]
}

/// The grid obtained by replacing every digit with its image under `m`.
pub open spec fn mapped_grid(g: Seq<Seq<u8>>, m: Seq<u8>) -> Seq<Seq<u8>> {
    Seq::new(9, |r: int| Seq::new(9, |c: int| m[g[r][c] as int]))
}

/// A puzzle derived from a solution: each cell is either hidden (0) or the
/// solution's digit.
pub open spec fn puzzle_of(p: Seq<Seq<u8>>, s: Seq<Seq<u8>>) -> bool {
    &&& grid_wf(p)
    &&& forall|r: int, c: int| 0 <= r < 9 && 0 <= c < 9 ==> (p[r][c] == 0 || p[r][c] == s[r][c])
}

/// A reordering of the nine row (or column) indices that keeps each group of
/// three together: injective, in range, and band-respecting.
pub open spec fn is_reindex(idx: Seq<usize>) -> bool {
    &&& idx.len() == 9
    &&& forall|i: int| 0 <= i < 9 ==> (#[trigger] idx[i]) < 9
    &&& forall|i: int, j: int| 0 <= i < j < 9 ==> idx[i] != idx[j]
    &&& forall|i: int, j: int|
        0 <= i < 9 && 0 <= j < 9 && i / 3 == j / 3 ==> (#[trigger] idx[i]) / 3 == (#[trigger] idx[j]) / 3
}

/// The grid whose cell `(r, c)` is the old grid's cell `(ri[r], ci[c])`.
pub open spec fn reindexed(g: Seq<Seq<u8>>, ri: Seq<usize>, ci: Seq<usize>) -> Seq<Seq<u8>> {
    Seq::new(9, |r: int| Seq::new(9, |c: int| g[ri[r] as int][ci[c] as int]))
}

/// Every cell of a valid solution holds a digit 1..=9.
pub proof fn lemma_cell_in_range(g: Seq<Seq<u8>>, r: int, c: int)
    requires
        is_solution(g),
        0 <= r < 9,
        0 <= c < 9,
    ensures
        1 <= g[r][c] <= 9,
{
    assert(line_ok(row_seq(g, r)));
    assert(row_seq(g, r)[c] == g[r][c]);
}

/// Two distinct numbers less than 9 apart have distinct residues mod 9.
proof fn lemma_mod9_ne(a: int, b: int)
    requires
        a != b,
        -9 < a - b < 9,
    ensures
        a % 9 != b % 9,
{
    lemma_fundamental_div_mod(a, 9);
    lemma_fundamental_div_mod(b, 9);
    lemma_mod_division_less_than_divisor(a, 9);
    lemma_mod_division_less_than_divisor(b, 9);
    if a % 9 == b % 9 {
        let qa = a / 9;
        let qb = b / 9;
        assert(a - b == 9 * (qa - qb));
        if qa == qb {
            assert(false);
        } else if qa > qb {
            assert(9 * (qa - qb) >= 9) by (nonlinear_arith)
                requires
                    qa - qb >= 1,
            ;
            assert(false);
        } else {
            assert(9 * (qa - qb) <= -9) by (nonlinear_arith)
                requires
                    qa - qb <= -1,
            ;
            assert(false);
        }
    }
}

/// The base grid formula: cell `(r, c)` holds `((3r + r/3 + c) mod 9) + 1`.
pub open spec fn base_cell(r: int, c: int) -> int {
    (3 * r + r / 3 + c) % 9 + 1
}

pub proof fn lemma_base_cell_range(r: int, c: int)
    requires
        0 <= r < 9,
        0 <= c < 9,
    ensures
        1 <= base_cell(r, c) <= 9,
{
    lemma_mod_division_less_than_divisor(3 * r + r / 3 + c, 9);
}

/// Within a row of the base grid, all nine cells differ.
proof fn lemma_base_row_ne(r: int, c1: int, c2: int)
    requires
        0 <= r < 9,
        0 <= c1 < 9,
        0 <= c2 < 9,
        c1 != c2,
    ensures
        base_cell(r, c1) != base_cell(r, c2),
{
    lemma_mod9_ne(3 * r + r / 3 + c1, 3 * r + r / 3 + c2);
}

/// Within a column of the base grid, all nine cells differ.
proof fn lemma_base_col_ne(c: int, r1: int, r2: int)
    requires
        0 <= c < 9,
        0 <= r1 < 9,
        0 <= r2 < 9,
        r1 != r2,
    ensures
        base_cell(r1, c) != base_cell(r2, c),
{
    lemma_fundamental_div_mod(r1, 3);
    lemma_fundamental_div_mod(r2, 3);
    lemma_mod_division_less_than_divisor(r1, 3);
    lemma_mod_division_less_than_divisor(r2, 3);
    let q1 = r1 / 3;
    let i1 = r1 % 3;
    let q2 = r2 / 3;
    let i2 = r2 % 3;
    // 3r + r/3 + c == 9q + (3i + q + c)
    lemma_mod_multiples_vanish(q1, 3 * i1 + q1 + c, 9);
    lemma_mod_multiples_vanish(q2, 3 * i2 + q2 + c, 9);
    assert(3 * r1 + r1 / 3 + c == 9 * q1 + (3 * i1 + q1 + c));
    assert(3 * r2 + r2 / 3 + c == 9 * q2 + (3 * i2 + q2 + c));
    lemma_mod9_ne(3 * i1 + q1 + c, 3 * i2 + q2 + c);
}

/// Within a box of the base grid, all nine cells differ.
proof fn lemma_base_box_ne(b: int, k1: int, k2: int)
    requires
        0 <= b < 9,
        0 <= k1 < 9,
        0 <= k2 < 9,
        k1 != k2,
    ensures
        base_cell(3 * (b / 3) + k1 / 3, 3 * (b % 3) + k1 % 3) != base_cell(
            3 * (b / 3) + k2 / 3,
            3 * (b % 3) + k2 % 3,
        ),
{
    lemma_fundamental_div_mod(b, 3);
    lemma_mod_division_less_than_divisor(b, 3);
    lemma_fundamental_div_mod(k1, 3);
    lemma_fundamental_div_mod(k2, 3);
    lemma_mod_division_less_than_divisor(k1, 3);
    lemma_mod_division_less_than_divisor(k2, 3);
    let bq = b / 3;
    let r1 = 3 * bq + k1 / 3;
    let r2 = 3 * bq + k2 / 3;
    // r / 3 == b / 3 for every cell of the box
    lemma_fundamental_div_mod_converse(r1, 3, bq, k1 / 3);
    lemma_fundamental_div_mod_converse(r2, 3, bq, k2 / 3);
    let key1 = 3 * r1 + r1 / 3 + (3 * (b % 3) + k1 % 3);
    let key2 = 3 * r2 + r2 / 3 + (3 * (b % 3) + k2 % 3);
    assert(key1 == 9 * bq + (bq + 3 * (b % 3) + k1));
    assert(key2 == 9 * bq + (bq + 3 * (b % 3) + k2));
    lemma_mod_multiples_vanish(bq, bq + 3 * (b % 3) + k1, 9);
    lemma_mod_multiples_vanish(bq, bq + 3 * (b % 3) + k2, 9);
    lemma_mod9_ne(bq + 3 * (b % 3) + k1, bq + 3 * (b % 3) + k2);
}

/// A grid that follows the base formula everywhere is a valid solution.
pub proof fn lemma_base_grid_valid(g: Seq<Seq<u8>>)
    requires
        grid_wf(g),
        forall|r: int, c: int| 0 <= r < 9 && 0 <= c < 9 ==> g[r][c] == base_cell(r, c),
    ensures
        is_solution(g),
{
    assert forall|k: int| 0 <= k < 9 implies line_ok(#[trigger] row_seq(g, k)) by {
        assert forall|i: int| 0 <= i < 9 implies 1 <= #[trigger] row_seq(g, k)[i] <= 9 by {
            lemma_base_cell_range(k, i);
        }
        assert forall|i: int, j: int| 0 <= i < j < 9 implies row_seq(g, k)[i] != row_seq(g, k)[j] by {
            lemma_base_row_ne(k, i, j);
        }
    }
    assert forall|k: int| 0 <= k < 9 implies line_ok(#[trigger] col_seq(g, k)) by {
        assert forall|i: int| 0 <= i < 9 implies 1 <= #[trigger] col_seq(g, k)[i] <= 9 by {
            lemma_base_cell_range(i, k);
        }
        assert forall|i: int, j: int| 0 <= i < j < 9 implies col_seq(g, k)[i] != col_seq(g, k)[j] by {
            lemma_base_col_ne(k, i, j);
        }
    }
    assert forall|k: int| 0 <= k < 9 implies line_ok(#[trigger] box_seq(g, k)) by {
        assert forall|i: int| 0 <= i < 9 implies 1 <= #[trigger] box_seq(g, k)[i] <= 9 by {
            lemma_box_cell_bounds(k, i);
            lemma_base_cell_range(3 * (k / 3) + i / 3, 3 * (k % 3) + i % 3);
        }
        assert forall|i: int, j: int| 0 <= i < j < 9 implies box_seq(g, k)[i] != box_seq(g, k)[j] by {
            lemma_box_cell_bounds(k, i);
            lemma_box_cell_bounds(k, j);
            lemma_base_box_ne(k, i, j);
        }
    }
}

/// The corner and cell offsets of a box stay inside the grid.
pub proof fn lemma_box_cell_bounds(b: int, k: int)
    requires
        0 <= b < 9,
        0 <= k < 9,
    ensures
        0 <= b / 3 < 3,
        0 <= b % 3 < 3,
        0 <= k / 3 < 3,
        0 <= k % 3 < 3,
        0 <= 3 * (b / 3) + k / 3 < 9,
        0 <= 3 * (b % 3) + k % 3 < 9,
{
    lemma_fundamental_div_mod(b, 3);
    lemma_mod_division_less_than_divisor(b, 3);
    lemma_fundamental_div_mod(k, 3);
    lemma_mod_division_less_than_divisor(k, 3);
}

/// Relabelling the digits of a valid solution with a digit mapping yields a
/// valid solution: every row, column and box of the mapped grid again holds
/// each of 1..=9 exactly once.
pub proof fn lemma_mapped_grid_valid(g: Seq<Seq<u8>>, m: Seq<u8>)
    requires
        is_solution(g),
        is_mapping(m),
    ensures
        is_solution(mapped_grid(g, m)),
{
    let h = mapped_grid(g, m);
    assert forall|r: int, c: int| 0 <= r < 9 && 0 <= c < 9 implies 1 <= #[trigger] h[r][c] <= 9
        && h[r][c] == m[g[r][c] as int] by {
        lemma_cell_in_range(g, r, c);
    }
    assert forall|k: int| 0 <= k < 9 implies line_ok(#[trigger] row_seq(h, k)) by {
        assert forall|i: int, j: int| 0 <= i < j < 9 implies row_seq(h, k)[i] != row_seq(h, k)[j] by {
            lemma_cell_in_range(g, k, i);
            lemma_cell_in_range(g, k, j);
            assert(row_seq(g, k)[i] == g[k][i] && row_seq(g, k)[j] == g[k][j]);
            assert(line_ok(row_seq(g, k)));
            lemma_mapping_ne(m, g[k][i] as int, g[k][j] as int);
        }
    }
    assert forall|k: int| 0 <= k < 9 implies line_ok(#[trigger] col_seq(h, k)) by {
        assert forall|i: int, j: int| 0 <= i < j < 9 implies col_seq(h, k)[i] != col_seq(h, k)[j] by {
            lemma_cell_in_range(g, i, k);
            lemma_cell_in_range(g, j, k);
            assert(col_seq(g, k)[i] == g[i][k] && col_seq(g, k)[j] == g[j][k]);
            assert(line_ok(col_seq(g, k)));
            lemma_mapping_ne(m, g[i][k] as int, g[j][k] as int);
        }
    }
    assert forall|k: int| 0 <= k < 9 implies line_ok(#[trigger] box_seq(h, k)) by {
        assert forall|i: int| 0 <= i < 9 implies 1 <= #[trigger] box_seq(h, k)[i] <= 9 by {
            lemma_box_cell_bounds(k, i);
        }
        assert forall|i: int, j: int| 0 <= i < j < 9 implies box_seq(h, k)[i] != box_seq(h, k)[j] by {
            lemma_box_cell_bounds(k, i);
            lemma_box_cell_bounds(k, j);
            let r1 = 3 * (k / 3) + i / 3;
            let c1 = 3 * (k % 3) + i % 3;
            let r2 = 3 * (k / 3) + j / 3;
            let c2 = 3 * (k % 3) + j % 3;
            lemma_cell_in_range(g, r1, c1);
            lemma_cell_in_range(g, r2, c2);
            assert(box_seq(g, k)[i] == g[r1][c1] && box_seq(g, k)[j] == g[r2][c2]);
            assert(line_ok(box_seq(g, k)));
            lemma_mapping_ne(m, g[r1][c1] as int, g[r2][c2] as int);
        }
    }
}

/// A digit mapping sends distinct digits to distinct digits.
proof fn lemma_mapping_ne(m: Seq<u8>, d: int, e: int)
    requires
        is_mapping(m),
        1 <= d <= 9,
        1 <= e <= 9,
        d != e,
    ensures
        m[d] != m[e],
{
}

/// Reordering rows and columns by band-respecting reindexings preserves
/// validity: every new row is an old row reordered, every new column an old
/// column reordered, and every new box an old box reordered.
pub proof fn lemma_reindexed_valid(g: Seq<Seq<u8>>, ri: Seq<usize>, ci: Seq<usize>)
    requires
        is_solution(g),
        is_reindex(ri),
        is_reindex(ci),
    ensures
        is_solution(reindexed(g, ri, ci)),
{
    let h = reindexed(g, ri, ci);
    assert forall|r: int, c: int| 0 <= r < 9 && 0 <= c < 9 implies 1 <= #[trigger] h[r][c] <= 9
        && h[r][c] == g[ri[r] as int][ci[c] as int] by {
        lemma_cell_in_range(g, ri[r] as int, ci[c] as int);
    }
    assert forall|k: int| 0 <= k < 9 implies line_ok(#[trigger] row_seq(h, k)) by {
        assert forall|i: int, j: int| 0 <= i < j < 9 implies row_seq(h, k)[i] != row_seq(h, k)[j] by {
            let orow = ri[k] as int;
            assert(line_ok(row_seq(g, orow)));
            assert(row_seq(g, orow)[ci[i] as int] == g[orow][ci[i] as int]);
            assert(row_seq(g, orow)[ci[j] as int] == g[orow][ci[j] as int]);
            lemma_line_ne(row_seq(g, orow), ci[i] as int, ci[j] as int);
        }
    }
    assert forall|k: int| 0 <= k < 9 implies line_ok(#[trigger] col_seq(h, k)) by {
        assert forall|i: int, j: int| 0 <= i < j < 9 implies col_seq(h, k)[i] != col_seq(h, k)[j] by {
            let ocol = ci[k] as int;
            assert(line_ok(col_seq(g, ocol)));
            assert(col_seq(g, ocol)[ri[i] as int] == g[ri[i] as int][ocol]);
            assert(col_seq(g, ocol)[ri[j] as int] == g[ri[j] as int][ocol]);
            lemma_line_ne(col_seq(g, ocol), ri[i] as int, ri[j] as int);
        }
    }
    assert forall|k: int| 0 <= k < 9 implies line_ok(#[trigger] box_seq(h, k)) by {
        assert forall|i: int, j: int| 0 <= i < j < 9 implies box_seq(h, k)[i] != box_seq(h, k)[j] by {
            lemma_box_cell_bounds(k, i);
            lemma_box_cell_bounds(k, j);
            let nr1 = 3 * (k / 3) + i / 3;
            let nc1 = 3 * (k % 3) + i % 3;
            let nr2 = 3 * (k / 3) + j / 3;
            let nc2 = 3 * (k % 3) + j % 3;
            assert(box_seq(h, k)[i] == h[nr1][nc1]);
            assert(box_seq(h, k)[j] == h[nr2][nc2]);
            let or1 = ri[nr1] as int;
            let oc1 = ci[nc1] as int;
            let or2 = ri[nr2] as int;
            let oc2 = ci[nc2] as int;
            // cells within one new box come from one old box
            lemma_fundamental_div_mod_converse(nr1, 3, k / 3, i / 3);
            lemma_fundamental_div_mod_converse(nr2, 3, k / 3, j / 3);
            lemma_fundamental_div_mod_converse(nc1, 3, k % 3, i % 3);
            lemma_fundamental_div_mod_converse(nc2, 3, k % 3, j % 3);
            assert(nr1 / 3 == nr2 / 3 && nc1 / 3 == nc2 / 3);
            assert(or1 / 3 == or2 / 3) by {
                assert(ri[nr1] / 3 == ri[nr2] / 3);
            }
            assert(oc1 / 3 == oc2 / 3) by {
                assert(ci[nc1] / 3 == ci[nc2] / 3);
            }
            if or1 == or2 && oc1 == oc2 {
                // the two new cells came from one old cell: impossible since
                // the reindexings are injective and (i, j) differ
                assert(nr1 == nr2 || ri[nr1] != ri[nr2]);
                assert(nc1 == nc2 || ci[nc1] != ci[nc2]);
                assert(nr1 == nr2 && nc1 == nc2);
                assert(i == 3 * (i / 3) + i % 3 && j == 3 * (j / 3) + j % 3);
                assert(false);
            }
            // both old cells lie in the old box ob
            let ob = (or1 / 3) * 3 + oc1 / 3;
            lemma_in_box(g, or1, oc1);
            lemma_in_box(g, or2, oc2);
            let k1 = (or1 % 3) * 3 + oc1 % 3;
            let k2 = (or2 % 3) * 3 + oc2 % 3;
            assert((or2 / 3) * 3 + oc2 / 3 == ob);
            assert(box_seq(g, ob)[k1] == g[or1][oc1]);
            assert(box_seq(g, ob)[k2] == g[or2][oc2]);
            assert(k1 != k2) by {
                lemma_fundamental_div_mod(or1, 3);
                lemma_fundamental_div_mod(or2, 3);
                lemma_fundamental_div_mod(oc1, 3);
                lemma_fundamental_div_mod(oc2, 3);
            }
            assert(line_ok(box_seq(g, ob)));
            lemma_line_ne(box_seq(g, ob), k1, k2);
        }
    }
}

/// Distinct positions of a valid line hold distinct digits.
proof fn lemma_line_ne(s: Seq<u8>, i: int, j: int)
    requires
        line_ok(s),
        0 <= i < 9,
        0 <= j < 9,
        i != j,
    ensures
        s[i] != s[j],
{
}

/// A cell `(r, c)` appears in box `(r/3)*3 + c/3` at offset `(r%3)*3 + c%3`.
proof fn lemma_in_box(g: Seq<Seq<u8>>, r: int, c: int)
    requires
        grid_wf(g),
        0 <= r < 9,
        0 <= c < 9,
    ensures
        0 <= (r / 3) * 3 + c / 3 < 9,
        0 <= (r % 3) * 3 + c % 3 < 9,
        box_seq(g, (r / 3) * 3 + c / 3)[(r % 3) * 3 + c % 3] == g[r][c],
{
    lemma_fundamental_div_mod(r, 3);
    lemma_fundamental_div_mod(c, 3);
    lemma_mod_division_less_than_divisor(r, 3);
    lemma_mod_division_less_than_divisor(c, 3);
    let b = (r / 3) * 3 + c / 3;
    let k = (r % 3) * 3 + c % 3;
    lemma_fundamental_div_mod_converse(b, 3, r / 3, c / 3);
    lemma_fundamental_div_mod_converse(k, 3, r % 3, c % 3);
    assert(3 * (b / 3) + k / 3 == r);
    assert(3 * (b % 3) + k % 3 == c);
}


/// A valid line holds every digit 1..=9: nine distinct in-range values must
/// cover the whole range.
pub proof fn lemma_line_ok_contains_all(s: Seq<u8>)
    requires
        line_ok(s),
    ensures
        forall|d: u8| 1 <= d <= 9 ==> s.contains(d),
{
    let digits: Set<u8> = Set::new(|d: u8| 1 <= d <= 9);
    let nine: Seq<u8> = seq![1u8, 2, 3, 4, 5, 6, 7, 8, 9];
    assert(nine.no_duplicates());
    nine.unique_seq_to_set();
    assert(nine.to_set() =~= digits);
    assert(s.no_duplicates());
    s.unique_seq_to_set();
    assert(s.to_set().subset_of(digits)) by {
        assert forall|v: u8| s.to_set().contains(v) implies digits.contains(v) by {
            assert(s.contains(v));
            let i = choose|i: int| 0 <= i < s.len() && s[i] == v;
        }
    }
    vstd::set_lib::lemma_subset_equality(s.to_set(), digits);
    assert forall|d: u8| 1 <= d <= 9 implies s.contains(d) by {
        assert(digits.contains(d));
        assert(s.to_set().contains(d));
    }
}

/// The number of nonzero cells in one row.
pub open spec fn nz_row(s: Seq<u8>) -> int
    decreases s.len(),
{
    if s.len() == 0 {
        0
    } else {
        nz_row(s.drop_last()) + if s.last() != 0 {
            1int
        } else {
            0int
        }
    }
}

/// The number of nonzero cells in a grid: the puzzle's clue count.
pub open spec fn nz_grid(g: Seq<Seq<u8>>) -> int
    decreases g.len(),
{
    if g.len() == 0 {
        0
    } else {
        nz_grid(g.drop_last()) + nz_row(g.last())
    }
}

/// A row with no zeros has as many nonzero cells as cells.
pub proof fn lemma_nz_row_full(s: Seq<u8>)
    requires
        forall|i: int| 0 <= i < s.len() ==> s[i] != 0,
    ensures
        nz_row(s) == s.len(),
    decreases s.len(),
{
    if s.len() > 0 {
        lemma_nz_row_full(s.drop_last());
    }
}

/// Zeroing one nonzero cell lowers the row count by one.
pub proof fn lemma_nz_row_update(s: Seq<u8>, c: int)
    requires
        0 <= c < s.len(),
        s[c] != 0,
    ensures
        nz_row(s.update(c, 0)) == nz_row(s) - 1,
    decreases s.len(),
{
    let u = s.update(c, 0);
    if c == s.len() - 1 {
        assert(u.drop_last() =~= s.drop_last());
    } else {
        assert(u.drop_last() =~= s.drop_last().update(c, 0));
        lemma_nz_row_update(s.drop_last(), c);
        assert(u.last() == s.last());
    }
}

/// A grid whose rows each count `k` nonzero cells counts `k` per row.
pub proof fn lemma_nz_grid_rows(g: Seq<Seq<u8>>, k: int)
    requires
        forall|r: int| 0 <= r < g.len() ==> nz_row(#[trigger] g[r]) == k,
    ensures
        nz_grid(g) == k * g.len(),
    decreases g.len(),
{
    if g.len() == 0 {
        assert(k * 0 == 0) by (nonlinear_arith);
    } else {
        lemma_nz_grid_rows(g.drop_last(), k);
        assert(k * (g.len() - 1) + k == k * g.len()) by (nonlinear_arith);
    }
}

/// Replacing one row changes the grid count by the rows' difference.
pub proof fn lemma_nz_grid_update(g: Seq<Seq<u8>>, r: int, row: Seq<u8>)
    requires
        0 <= r < g.len(),
    ensures
        nz_grid(g.update(r, row)) == nz_grid(g) - nz_row(g[r]) + nz_row(row),
    decreases g.len(),
{
    let u = g.update(r, row);
    if r == g.len() - 1 {
        assert(u.drop_last() =~= g.drop_last());
    } else {
        assert(u.drop_last() =~= g.drop_last().update(r, row));
        lemma_nz_grid_update(g.drop_last(), r, row);
        assert(u.last() == g.last());
    }
}

/// Zeroing one nonzero cell lowers the grid count by one.
pub proof fn lemma_nz_grid_zero_cell(g: Seq<Seq<u8>>, r: int, c: int)
    requires
        0 <= r < g.len(),
        0 <= c < g[r].len(),
        g[r][c] != 0,
    ensures
        nz_grid(g.update(r, g[r].update(c, 0))) == nz_grid(g) - 1,
{
    lemma_nz_grid_update(g, r, g[r].update(c, 0));
    lemma_nz_row_update(g[r], c);
}

/// A valid solution has 81 nonzero cells.
pub proof fn lemma_nz_grid_solution(g: Seq<Seq<u8>>)
    requires
        is_solution(g),
    ensures
        nz_grid(g) == 81,
{
    assert forall|r: int| 0 <= r < 9 implies nz_row(#[trigger] g[r]) == 9 by {
        assert forall|c: int| 0 <= c < 9 implies g[r][c] != 0 by {
            lemma_cell_in_range(g, r, c);
        }
        lemma_nz_row_full(g[r]);
    }
    lemma_nz_grid_rows(g, 9);
}

} // verus!
