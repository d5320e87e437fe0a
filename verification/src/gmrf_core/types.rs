//! Error vocabulary of the core routines, the walk over the stored entries of a
//! compressed-column sparse matrix, and the choice of triangle that a sparse
//! Cholesky factorization reads.

use vstd::prelude::*;

verus! {

/// Error variants produced by the core GMRF routines.
#[derive(Debug)]
pub enum GmrfError {
    /// The provided inputs are inconsistent (dimension mismatch or missing data).
    DimensionMismatch(&'static str),
    /// A precision matrix was required but not available in concrete form.
    MissingPrecisionMatrix,
    /// Exact marginal variance recovery requires an explicit sparse precision matrix.
    ExactVarianceRequiresPrecisionMatrix,
    /// A precision factorization was required but not available.
    MissingPrecisionSqrt,
    /// A sparse matrix factorization failed because the matrix was singular.
    SingularMatrix,
    /// Factorization failed because the precision was not positive definite.
    NonPositiveDefinite,
    /// Linear equality constraints were singular under the prior covariance.
    SingularConstraintSystem,
    /// A covariance-derived quantity violated basic positivity constraints beyond roundoff.
    NumericalInstability(&'static str),
}

/// The triangle of a symmetric matrix that a Cholesky factorization reads.
#[derive(Debug, Clone, Copy, PartialEq, Eq, Structural)]
pub enum CholeskySide {
    Upper,
    Lower,
}

/// Some stored entry `(row, col)` of the pattern lies above the diagonal.
pub open spec fn has_upper_entry(pattern: Seq<(usize, usize)>) -> bool {
    exists|i: int| 0 <= i < pattern.len() && (#[trigger] pattern[i]).0 < pattern[i].1
}

/// Chooses the triangle to factorize from the stored `(row, col)` positions of a
/// sparse symmetric matrix: the upper one as soon as an entry lies above the
/// diagonal, the lower one otherwise (lower-only, diagonal-only and empty
/// patterns alike).
pub fn select_cholesky_side(pattern: &[(usize, usize)]) -> (side: CholeskySide)
    ensures
        side == (if has_upper_entry(pattern@) {
            CholeskySide::Upper
        } else {
            CholeskySide::Lower
        }),
{
    let mut has_upper = false;
    let mut has_lower = false;
    let mut i: usize = 0;
    while i < pattern.len()
        invariant
            i <= pattern@.len(),
            has_upper ==> has_upper_entry(pattern@),
            !has_upper ==> forall|j: int| 0 <= j < i ==> !((#[trigger] pattern@[j]).0 < pattern@[j].1),
        ensures
            has_upper || i == pattern@.len(),
        decreases pattern.len() - i,
    {
        let (row, col) = pattern[i];
        if row < col {
            has_upper = true;
            assert(pattern@[i as int].0 < pattern@[i as int].1);
        } else if row > col {
            has_lower = true;
        }
        if has_upper {
            break;
        }
        i = i + 1;
    }
    if has_upper {
        CholeskySide::Upper
    } else if has_lower {
        CholeskySide::Lower
    } else {
        CholeskySide::Lower
    }
}


/// `col_ptr` is a compressed-column pointer array: it starts at 0 and never
/// decreases; column `c` holds the entries `col_ptr[c] .. col_ptr[c + 1]`.
pub open spec fn col_ptr_well_formed(col_ptr: Seq<usize>) -> bool {
    &&& col_ptr.len() >= 1
    &&& col_ptr[0] == 0
    &&& forall|i: int, j: int| 0 <= i <= j < col_ptr.len() ==> col_ptr[i] <= col_ptr[j]
}

/// Number of stored entries that `col_ptr` describes.
pub open spec fn stored_count(col_ptr: Seq<usize>) -> int {
    col_ptr.last() as int
}

/// Stored entry `k` lies in column `c`.
pub open spec fn entry_in_column(col_ptr: Seq<usize>, k: int, c: int) -> bool {
    0 <= c < col_ptr.len() - 1 && col_ptr[c] <= k < col_ptr[c + 1]
}

/// Walk over the stored entries of a compressed-column (CSC) matrix, column by
/// column and within a column in storage order, yielding `(row, col, &value)`.
pub struct SparseTripletIter<'a, T> {
    col_ptr: &'a [usize],
    row_idx: &'a [usize],
    vals: &'a [T],
    col: usize,
    idx: usize,
}

impl<'a, T> SparseTripletIter<'a, T> {
    #[verifier::type_invariant]
    closed spec fn inv(self) -> bool {
        &&& col_ptr_well_formed(self.col_ptr@)
        &&& self.row_idx@.len() == stored_count(self.col_ptr@)
        &&& self.vals@.len() == stored_count(self.col_ptr@)
        &&& self.col < self.col_ptr@.len()
        &&& self.col < self.col_ptr@.len() - 1 ==> self.col_ptr@[self.col as int] <= self.idx
            <= self.col_ptr@[self.col + 1]
    }

    /// Number of entries yielded so far.
    pub closed spec fn position(self) -> int {
        if self.col < self.col_ptr@.len() - 1 {
            self.idx as int
        } else {
            stored_count(self.col_ptr@)
        }
    }

    /// The column pointers walked over.
    pub closed spec fn spec_col_ptr(self) -> Seq<usize> {
        self.col_ptr@
    }

    /// The row indices of the stored entries.
    pub closed spec fn spec_row_idx(self) -> Seq<usize> {
        self.row_idx@
    }

    /// The values of the stored entries.
    pub closed spec fn spec_vals(self) -> Seq<T> {
        self.vals@
    }

    /// A walk from the first stored entry of the matrix given by its column
    /// pointers, row indices and values.
    pub fn new(col_ptr: &'a [usize], row_idx: &'a [usize], vals: &'a [T]) -> (it: Self)
        requires
            col_ptr_well_formed(col_ptr@),
            row_idx@.len() == stored_count(col_ptr@),
            vals@.len() == stored_count(col_ptr@),
        ensures
            it.position() == 0,
            it.spec_col_ptr() == col_ptr@,
            it.spec_row_idx() == row_idx@,
            it.spec_vals() == vals@,
    {
        Self { col_ptr, row_idx, vals, col: 0, idx: 0 }
    }

    /// The next stored entry: `(row, col, &value)` of entry `k`, the current
    /// position, which moves to `k + 1`; `None` once all entries are yielded.
    pub fn next(&mut self) -> (r: Option<(usize, usize, &'a T)>)
        ensures
            final(self).spec_col_ptr() == old(self).spec_col_ptr(),
            final(self).spec_row_idx() == old(self).spec_row_idx(),
            final(self).spec_vals() == old(self).spec_vals(),
            old(self).position() < stored_count(old(self).spec_col_ptr()) ==> ({
                let k = old(self).position();
                &&& r matches Some((row, col, v)) && row == old(self).spec_row_idx()[k]
                    && entry_in_column(old(self).spec_col_ptr(), k, col as int) && *v
                    == old(self).spec_vals()[k]
                &&& final(self).position() == k + 1
            }),
            old(self).position() >= stored_count(old(self).spec_col_ptr()) ==> r is None
                && final(self).position() == old(self).position(),
    {
        proof {
            use_type_invariant(&*self);
        }
        let ncols = self.col_ptr.len() - 1;
        let ghost k = self.position();
        while self.col < ncols
            invariant
                ncols == self.col_ptr@.len() - 1,
                col_ptr_well_formed(self.col_ptr@),
                self.row_idx@.len() == stored_count(self.col_ptr@),
                self.vals@.len() == stored_count(self.col_ptr@),
                self.col <= ncols,
                self.col < ncols ==> self.col_ptr@[self.col as int] <= self.idx
                    <= self.col_ptr@[self.col + 1],
                self.position() == k,
                k == old(self).position(),
                self.col_ptr@ == old(self).col_ptr@,
                self.row_idx@ == old(self).row_idx@,
                self.vals@ == old(self).vals@,
            decreases ncols - self.col,
        {
            let end = self.col_ptr[self.col + 1];
            if self.idx < end {
                assert(self.col_ptr@[self.col + 1] <= self.col_ptr@[ncols as int]);
                assert(self.col_ptr@.last() == self.col_ptr@[ncols as int]);
                let row = self.row_idx[self.idx];
                let val = &self.vals[self.idx];
                let col = self.col;
                self.idx = self.idx + 1;
                return Some((row, col, val));
            }
            self.col = self.col + 1;
            if self.col < ncols {
                self.idx = self.col_ptr[self.col];
            }
        }
        None
    }
}

} // verus!
