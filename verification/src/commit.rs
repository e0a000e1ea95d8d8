//! The per-value commitment scheme: a 64-bit digest of `value ‖ randomness`
//! taken from SHA-256, with fresh nonzero randomness per cell.  Matrices and
//! vectors are committed element by element, and every verification function
//! returns exactly whether each digest matches.
use vstd::prelude::*;
use crate::byteops::{be64, be64_value, push_be64, read_be64};
use crate::hashing::{sha256, sha256_of};
use crate::rng::random_u64_nonzero;
use crate::sudoku::{lemma_deep_dims_u64, lemma_deep_dims_u8, push_digest_row, CommitMat, Matrix};

verus! {

/// The bytes hashed for a commitment: the value byte, then the randomness in
/// big-endian order.
pub open spec fn commit_input(v: u8, r: u64) -> Seq<u8> {
    seq![v] + be64(r)
}

/// The commitment digest: the first eight bytes of SHA-256 over
/// `commit_input`, read big-endian.
pub open spec fn commit_digest(v: u8, r: u64) -> u64 {
    be64_value(sha256_of(commit_input(v, r)).take(8))
}

/// A digest `d` opens to `(v, r)` exactly when it equals their commitment.
pub open spec fn value_verifies(v: u8, r: u64, d: u64) -> bool {
    d == commit_digest(v, r)
}

/// Commitment correctness: every honestly computed commitment verifies
/// against the value and randomness it was made from.
pub proof fn lemma_commit_correct(v: u8, r: u64)
    ensures
        value_verifies(v, r, commit_digest(v, r)),
{
}

/// Compute the commitment digest of one value under given randomness.
pub fn hash_commit(value: u8, random: u64) -> (d: u64)
    ensures
        d == commit_digest(value, random),
{
    let mut data: Vec<u8> = Vec::new();
    data.push(value);
    push_be64(&mut data, random);
    assert(data@ =~= commit_input(value, random));
    let h = sha256(&data);
    let d = read_be64(&h, 0);
    assert(h@.subrange(0, 8) =~= sha256_of(commit_input(value, random)).take(8));
    d
}

/// Commit to one value with fresh nonzero randomness; returns the digest and
/// the randomness.
pub fn commit_value(value: u8) -> (p: (u64, u64))
    ensures
        p.1 >= 1,
        p.0 == commit_digest(value, p.1),
{
    let r = random_u64_nonzero();
    (hash_commit(value, r), r)
}

/// Check one revealed `(value, randomness)` pair against a digest.
pub fn v_a_value(value: u8, random: u64, commt: u64) -> (b: bool)
    ensures
        b == value_verifies(value, random, commt),
{
    let computed = hash_commit(value, random);
    computed == commt
}

/// A 9x9 digest matrix `com` commits to grid `g` under randomness `rnd`.
pub open spec fn mat_commits(g: Seq<Seq<u8>>, com: Seq<Seq<u64>>, rnd: Seq<Seq<u64>>) -> bool {
    &&& com.len() == 9
    &&& rnd.len() == 9
    &&& forall|r: int| 0 <= r < 9 ==> (#[trigger] com[r]).len() == 9
    &&& forall|r: int| 0 <= r < 9 ==> (#[trigger] rnd[r]).len() == 9
    &&& forall|r: int, c: int|
        0 <= r < 9 && 0 <= c < 9 ==> com[r][c] == commit_digest(g[r][c], rnd[r][c])
}

/// A digest vector `com` commits to the values `v` under randomness `rnd`.
pub open spec fn vec_commits(v: Seq<u8>, com: Seq<u64>, rnd: Seq<u64>) -> bool {
    &&& com.len() == v.len()
    &&& rnd.len() == v.len()
    &&& forall|i: int| 0 <= i < v.len() ==> com[i] == commit_digest(v[i], #[trigger] rnd[i])
}

/// Commitment operations on a full 9x9 board.
pub trait MatCommit {
    spec fn grid(&self) -> Seq<Seq<u8>>;

    /// Commit to every cell: returns the digest matrix and the randomness
    /// matrix, with every randomness nonzero.
    fn commit(&self) -> (r: (CommitMat, CommitMat)) where Self: Sized
        requires
            crate::grid::grid_wf(self.grid()),
        ensures
            mat_commits(self.grid(), r.0.deep_view(), r.1.deep_view()),
            forall|i: int, j: int| 0 <= i < 9 && 0 <= j < 9 ==> r.1.deep_view()[i][j] >= 1,
    ;

    /// Check every cell of a commitment; true exactly when all digests match.
    fn verify(&self, commited: &CommitMat, random: &CommitMat) -> (b: bool)
        requires
            crate::grid::grid_wf(self.grid()),
            commited.deep_view().len() == 9,
            random.deep_view().len() == 9,
            forall|i: int| 0 <= i < 9 ==> (#[trigger] commited.deep_view()[i]).len() == 9,
            forall|i: int| 0 <= i < 9 ==> (#[trigger] random.deep_view()[i]).len() == 9,
        ensures
            b == mat_commits(self.grid(), commited.deep_view(), random.deep_view()),
    ;

    /// Extract the 3x3 block of box `cell_no` as a 3x3 matrix.
    fn get_a_cell(&self, cell_no: u8) -> (r: Vec<Vec<u8>>)
        requires
            crate::grid::grid_wf(self.grid()),
            cell_no < 9,
        ensures
            r.deep_view().len() == 3,
            forall|i: int| 0 <= i < 3 ==> (#[trigger] r.deep_view()[i]).len() == 3,
            forall|i: int, j: int|
                0 <= i < 3 && 0 <= j < 3 ==> r.deep_view()[i][j] == self.grid()[(cell_no as int / 3)
                    * 3 + i][(cell_no as int % 3) * 3 + j],
    ;
}

impl MatCommit for Matrix {
    open spec fn grid(&self) -> Seq<Seq<u8>> {
        self.deep_view()
    }

    fn commit(&self) -> (r: (CommitMat, CommitMat)) {
        let mut com: CommitMat = Vec::new();
        let mut rnd: CommitMat = Vec::new();
        let mut row: usize = 0;
        while row < 9
            invariant
                row <= 9,
                crate::grid::grid_wf(self.deep_view()),
                com.deep_view().len() == row,
                rnd.deep_view().len() == row,
                forall|i: int| 0 <= i < row ==> (#[trigger] com.deep_view()[i]).len() == 9,
                forall|i: int| 0 <= i < row ==> (#[trigger] rnd.deep_view()[i]).len() == 9,
                forall|i: int, j: int|
                    0 <= i < row && 0 <= j < 9 ==> com.deep_view()[i][j] == commit_digest(
                        self.deep_view()[i][j],
                        rnd.deep_view()[i][j],
                    ),
                forall|i: int, j: int|
                    0 <= i < row && 0 <= j < 9 ==> rnd.deep_view()[i][j] >= 1,
            decreases 9 - row,
        {
            let mut crow: Vec<u64> = Vec::new();
            let mut rrow: Vec<u64> = Vec::new();
            let mut col: usize = 0;
            while col < 9
                invariant
                    row < 9,
                    col <= 9,
                    crate::grid::grid_wf(self.deep_view()),
                    crow@.len() == col,
                    rrow@.len() == col,
                    forall|j: int|
                        0 <= j < col ==> crow@[j] == commit_digest(
                            self.deep_view()[row as int][j],
                            rrow@[j],
                        ),
                    forall|j: int| 0 <= j < col ==> rrow@[j] >= 1,
                decreases 9 - col,
            {
                proof {
                    lemma_deep_dims_u8(*self);
                }
                let (d, rv) = commit_value(self[row][col]);
                crow.push(d);
                rrow.push(rv);
                col = col + 1;
            }
            push_digest_row(&mut com, crow);
            push_digest_row(&mut rnd, rrow);
            row = row + 1;
        }
        (com, rnd)
    }

    fn verify(&self, commited: &CommitMat, random: &CommitMat) -> (b: bool) {
        let mut row: usize = 0;
        while row < 9
            invariant
                row <= 9,
                crate::grid::grid_wf(self.deep_view()),
                commited.deep_view().len() == 9,
                random.deep_view().len() == 9,
                forall|i: int| 0 <= i < 9 ==> (#[trigger] commited.deep_view()[i]).len() == 9,
                forall|i: int| 0 <= i < 9 ==> (#[trigger] random.deep_view()[i]).len() == 9,
                forall|i: int, j: int|
                    0 <= i < row && 0 <= j < 9 ==> commited.deep_view()[i][j] == commit_digest(
                        self.deep_view()[i][j],
                        random.deep_view()[i][j],
                    ),
            decreases 9 - row,
        {
            let mut col: usize = 0;
            while col < 9
                invariant
                    row < 9,
                    col <= 9,
                    crate::grid::grid_wf(self.deep_view()),
                    commited.deep_view().len() == 9,
                    random.deep_view().len() == 9,
                    forall|i: int| 0 <= i < 9 ==> (#[trigger] commited.deep_view()[i]).len() == 9,
                    forall|i: int| 0 <= i < 9 ==> (#[trigger] random.deep_view()[i]).len() == 9,
                    forall|i: int, j: int|
                        0 <= i < row && 0 <= j < 9 ==> commited.deep_view()[i][j] == commit_digest(
                            self.deep_view()[i][j],
                            random.deep_view()[i][j],
                        ),
                    forall|j: int|
                        0 <= j < col ==> commited.deep_view()[row as int][j] == commit_digest(
                            self.deep_view()[row as int][j],
                            random.deep_view()[row as int][j],
                        ),
                decreases 9 - col,
            {
                proof {
                    lemma_deep_dims_u8(*self);
                    lemma_deep_dims_u64(*random);
                    lemma_deep_dims_u64(*commited);
                }
                if !v_a_value(self[row][col], random[row][col], commited[row][col]) {
                    return false;
                }
                col = col + 1;
            }
            row = row + 1;
        }
        true
    }

    fn get_a_cell(&self, cell_no: u8) -> (r: Vec<Vec<u8>>) {
        let start_row: usize = ((cell_no / 3) * 3) as usize;
        let start_col: usize = ((cell_no % 3) * 3) as usize;
        let mut cell: Vec<Vec<u8>> = Vec::new();
        let mut i: usize = 0;
        while i < 3
            invariant
                i <= 3,
                crate::grid::grid_wf(self.deep_view()),
                cell_no < 9,
                start_row == (cell_no as int / 3) * 3,
                start_col == (cell_no as int % 3) * 3,
                start_row <= 6,
                start_col <= 6,
                cell.deep_view().len() == i,
                forall|a: int| 0 <= a < i ==> (#[trigger] cell.deep_view()[a]).len() == 3,
                forall|a: int, b: int|
                    0 <= a < i && 0 <= b < 3 ==> cell.deep_view()[a][b] == self.deep_view()[
                        start_row + a][start_col + b],
            decreases 3 - i,
        {
            let mut crow: Vec<u8> = Vec::new();
            let mut j: usize = 0;
            while j < 3
                invariant
                    i < 3,
                    j <= 3,
                    crate::grid::grid_wf(self.deep_view()),
                    start_row <= 6,
                    start_col <= 6,
                    crow@.len() == j,
                    forall|b: int|
                        0 <= b < j ==> crow@[b] == self.deep_view()[start_row + i as int][start_col
                            + b],
                decreases 3 - j,
            {
                proof {
                    lemma_deep_dims_u8(*self);
                }
                crow.push(self[start_row + i][start_col + j]);
                j = j + 1;
            }
            let ghost pre = cell.deep_view();
            cell.push(crow);
            proof {
                assert(cell.deep_view() =~~= pre.push(crow@));
            }
            i = i + 1;
        }
        cell
    }
}

/// Commitment operations on the digit-mapping vector.
pub trait CastCommit {
    spec fn vals(&self) -> Seq<u8>;

    /// Commit element-wise with fresh nonzero randomness.
    fn commit(&self) -> (r: (Vec<u64>, Vec<u64>))
        ensures
            vec_commits(self.vals(), r.0@, r.1@),
            forall|i: int| 0 <= i < r.1@.len() ==> r.1@[i] >= 1,
    ;

    /// Check every element; true exactly when all digests match.
    fn verify(&self, commited: &Vec<u64>, random: &Vec<u64>) -> (b: bool)
        requires
            commited@.len() == self.vals().len(),
            random@.len() == self.vals().len(),
        ensures
            b == vec_commits(self.vals(), commited@, random@),
    ;
}

impl CastCommit for Vec<u8> {
    open spec fn vals(&self) -> Seq<u8> {
        self@
    }

    fn commit(&self) -> (r: (Vec<u64>, Vec<u64>)) {
        let mut com: Vec<u64> = Vec::new();
        let mut rnd: Vec<u64> = Vec::new();
        let mut i: usize = 0;
        while i < self.len()
            invariant
                i <= self@.len(),
                com@.len() == i,
                rnd@.len() == i,
                forall|j: int| 0 <= j < i ==> com@[j] == commit_digest(self@[j], #[trigger] rnd@[j]),
                forall|j: int| 0 <= j < i ==> rnd@[j] >= 1,
            decreases self@.len() - i,
        {
            let (d, rv) = commit_value(self[i]);
            com.push(d);
            rnd.push(rv);
            i = i + 1;
        }
        (com, rnd)
    }

    fn verify(&self, commited: &Vec<u64>, random: &Vec<u64>) -> (b: bool) {
        let mut i: usize = 0;
        while i < self.len()
            invariant
                i <= self@.len(),
                commited@.len() == self@.len(),
                random@.len() == self@.len(),
                forall|j: int|
                    0 <= j < i ==> commited@[j] == commit_digest(self@[j], #[trigger] random@[j]),
            decreases self@.len() - i,
        {
            if !v_a_value(self[i], random[i], commited[i]) {
                return false;
            }
            i = i + 1;
        }
        true
    }
}

/// The 3x3 block extraction on digest matrices, mirroring `get_a_cell` on
/// value boards.
pub trait CommitMat_ {
    spec fn digests(&self) -> Seq<Seq<u64>>;

    fn get_a_cell(&self, cell_no: u8) -> (r: Vec<Vec<u64>>)
        requires
            self.digests().len() == 9,
            forall|i: int| 0 <= i < 9 ==> (#[trigger] self.digests()[i]).len() == 9,
            cell_no < 9,
        ensures
            r.deep_view().len() == 3,
            forall|i: int| 0 <= i < 3 ==> (#[trigger] r.deep_view()[i]).len() == 3,
            forall|i: int, j: int|
                0 <= i < 3 && 0 <= j < 3 ==> r.deep_view()[i][j] == self.digests()[(cell_no as int
                    / 3) * 3 + i][(cell_no as int % 3) * 3 + j],
    ;
}

impl CommitMat_ for CommitMat {
    open spec fn digests(&self) -> Seq<Seq<u64>> {
        self.deep_view()
    }

    fn get_a_cell(&self, cell_no: u8) -> (r: Vec<Vec<u64>>) {
        let start_row: usize = ((cell_no / 3) * 3) as usize;
        let start_col: usize = ((cell_no % 3) * 3) as usize;
        let mut cell: Vec<Vec<u64>> = Vec::new();
        let mut i: usize = 0;
        while i < 3
            invariant
                i <= 3,
                self.deep_view().len() == 9,
                forall|a: int| 0 <= a < 9 ==> (#[trigger] self.deep_view()[a]).len() == 9,
                cell_no < 9,
                start_row == (cell_no as int / 3) * 3,
                start_col == (cell_no as int % 3) * 3,
                start_row <= 6,
                start_col <= 6,
                cell.deep_view().len() == i,
                forall|a: int| 0 <= a < i ==> (#[trigger] cell.deep_view()[a]).len() == 3,
                forall|a: int, b: int|
                    0 <= a < i && 0 <= b < 3 ==> cell.deep_view()[a][b] == self.deep_view()[
                        start_row + a][start_col + b],
            decreases 3 - i,
        {
            let mut crow: Vec<u64> = Vec::new();
            let mut j: usize = 0;
            while j < 3
                invariant
                    i < 3,
                    j <= 3,
                    self.deep_view().len() == 9,
                    forall|a: int| 0 <= a < 9 ==> (#[trigger] self.deep_view()[a]).len() == 9,
                    start_row <= 6,
                    start_col <= 6,
                    crow@.len() == j,
                    forall|b: int|
                        0 <= b < j ==> crow@[b] == self.deep_view()[start_row + i as int][start_col
                            + b],
                decreases 3 - j,
            {
                proof {
                    lemma_deep_dims_u64(*self);
                }
                crow.push(self[start_row + i][start_col + j]);
                j = j + 1;
            }
            let ghost pre = cell.deep_view();
            cell.push(crow);
            proof {
                assert(cell.deep_view() =~~= pre.push(crow@));
            }
            i = i + 1;
        }
        cell
    }
}

/// Check a revealed line of nine values against nine digests.
pub fn v_a_line(cmmt: &Vec<u64>, rand: &Vec<u64>, line: &Vec<u8>) -> (b: bool)
    requires
        cmmt@.len() >= 9,
        rand@.len() >= 9,
        line@.len() >= 9,
    ensures
        b == forall|i: int| 0 <= i < 9 ==> cmmt@[i] == commit_digest(line@[i], #[trigger] rand@[i]),
{
    let mut i: usize = 0;
    while i < 9
        invariant
            i <= 9,
            cmmt@.len() >= 9,
            rand@.len() >= 9,
            line@.len() >= 9,
            forall|j: int| 0 <= j < i ==> cmmt@[j] == commit_digest(line@[j], #[trigger] rand@[j]),
        decreases 9 - i,
    {
        if !v_a_value(line[i], rand[i], cmmt[i]) {
            return false;
        }
        i = i + 1;
    }
    true
}

/// Check a revealed 3x3 block of values against a 3x3 block of digests.
pub fn v_a_cell(cmmt: &Vec<Vec<u64>>, rand: &Vec<Vec<u64>>, mat: &Matrix) -> (b: bool)
    requires
        cmmt.deep_view().len() >= 3,
        rand.deep_view().len() >= 3,
        mat.deep_view().len() >= 3,
        forall|i: int| 0 <= i < 3 ==> (#[trigger] cmmt.deep_view()[i]).len() >= 3,
        forall|i: int| 0 <= i < 3 ==> (#[trigger] rand.deep_view()[i]).len() >= 3,
        forall|i: int| 0 <= i < 3 ==> (#[trigger] mat.deep_view()[i]).len() >= 3,
    ensures
        b == forall|i: int, j: int|
            0 <= i < 3 && 0 <= j < 3 ==> cmmt.deep_view()[i][j] == commit_digest(
                mat.deep_view()[i][j],
                rand.deep_view()[i][j],
            ),
{
    let mut i: usize = 0;
    while i < 3
        invariant
            i <= 3,
            cmmt.deep_view().len() >= 3,
            rand.deep_view().len() >= 3,
            mat.deep_view().len() >= 3,
            forall|a: int| 0 <= a < 3 ==> (#[trigger] cmmt.deep_view()[a]).len() >= 3,
            forall|a: int| 0 <= a < 3 ==> (#[trigger] rand.deep_view()[a]).len() >= 3,
            forall|a: int| 0 <= a < 3 ==> (#[trigger] mat.deep_view()[a]).len() >= 3,
            forall|a: int, b: int|
                0 <= a < i && 0 <= b < 3 ==> cmmt.deep_view()[a][b] == commit_digest(
                    mat.deep_view()[a][b],
                    rand.deep_view()[a][b],
                ),
        decreases 3 - i,
    {
        let mut j: usize = 0;
        while j < 3
            invariant
                i < 3,
                j <= 3,
                cmmt.deep_view().len() >= 3,
                rand.deep_view().len() >= 3,
                mat.deep_view().len() >= 3,
                forall|a: int| 0 <= a < 3 ==> (#[trigger] cmmt.deep_view()[a]).len() >= 3,
                forall|a: int| 0 <= a < 3 ==> (#[trigger] rand.deep_view()[a]).len() >= 3,
                forall|a: int| 0 <= a < 3 ==> (#[trigger] mat.deep_view()[a]).len() >= 3,
                forall|a: int, b: int|
                    0 <= a < i && 0 <= b < 3 ==> cmmt.deep_view()[a][b] == commit_digest(
                        mat.deep_view()[a][b],
                        rand.deep_view()[a][b],
                    ),
                forall|b: int|
                    0 <= b < j ==> cmmt.deep_view()[i as int][b] == commit_digest(
                        mat.deep_view()[i as int][b],
                        rand.deep_view()[i as int][b],
                    ),
            decreases 3 - j,
        {
            proof {
                lemma_deep_dims_u8(*mat);
                lemma_deep_dims_u64(*rand);
                lemma_deep_dims_u64(*cmmt);
            }
            if !v_a_value(mat[i][j], rand[i][j], cmmt[i][j]) {
                return false;
            }
            j = j + 1;
        }
        i = i + 1;
    }
    true
}

} // verus!
