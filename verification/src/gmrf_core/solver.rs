//! Solver configuration vocabulary: direct or iterative algorithms and the
//! preconditioner of iterative ones.

use vstd::prelude::*;

verus! {

/// Available direct solver backends.
#[derive(Clone, Copy, Debug, PartialEq, Eq, Structural)]
pub enum DirectBackend {
    /// Dense Cholesky factorization used as a placeholder until sparse factorizations land.
    DenseCholesky,
}

/// Available iterative solver flavors.
#[derive(Clone, Copy, Debug, PartialEq, Eq, Structural)]
pub enum IterativeMethod {
    /// Conjugate Gradient for symmetric positive definite precisions.
    ConjugateGradient,
}

/// Solver algorithm selection.
#[derive(Clone, Copy, Debug, PartialEq, Eq, Structural)]
pub enum SolverAlgorithm {
    Direct(DirectBackend),
    Iterative(IterativeMethod),
}

/// Preconditioner selection when running iterative solvers.
#[derive(Clone, Copy, Debug, PartialEq, Eq, Structural)]
pub enum PreconditionerKind {
    /// No preconditioning: residuals are used as they are.
    NoPreconditioner,
    Jacobi,
}

/// The value of the first triplet of `s`, in order, that sits on the diagonal
/// in row `row`; `None` where the row has no stored diagonal entry.
pub open spec fn first_diagonal<T>(s: Seq<(usize, usize, T)>, row: usize) -> Option<T>
    decreases s.len(),
{
    if s.len() == 0 {
        None
    } else {
        match first_diagonal(s.drop_last(), row) {
            Some(v) => Some(v),
            None => if s.last().0 == row && s.last().1 == row {
                Some(s.last().2)
            } else {
                None
            },
        }
    }
}

/// The diagonal that a Jacobi preconditioner inverts: for each of the `n`
/// rows, the first stored diagonal entry in triplet order (later duplicates
/// are not added to it), or `None` where the row stores none.
pub fn diagonal_entries<T: Copy>(n: usize, triplets: &[(usize, usize, T)]) -> (r: Vec<Option<T>>)
    requires
        forall|i: int| 0 <= i < triplets@.len() ==> (#[trigger] triplets@[i]).0 < n,
    ensures
        r@ == Seq::new(n as nat, |row: int| first_diagonal(triplets@, row as usize)),
{
    let mut r: Vec<Option<T>> = Vec::new();
    let mut k: usize = 0;
    while k < n
        invariant
            k <= n,
            r@ == Seq::new(k as nat, |row: int| None::<T>),
        decreases n - k,
    {
        r.push(None);
        k = k + 1;
        assert(r@ =~= Seq::new(k as nat, |row: int| None::<T>));
    }
    assert(triplets@.subrange(0, 0) =~= Seq::<(usize, usize, T)>::empty());
    assert(r@ =~= Seq::new(n as nat, |row: int| first_diagonal(triplets@.subrange(0, 0), row as usize)));
    let mut i: usize = 0;
    while i < triplets.len()
        invariant
            i <= triplets@.len(),
            forall|q: int| 0 <= q < triplets@.len() ==> (#[trigger] triplets@[q]).0 < n,
            r@ == Seq::new(
                n as nat,
                |row: int| first_diagonal(triplets@.subrange(0, i as int), row as usize),
            ),
        decreases triplets.len() - i,
    {
        let (row, col, v) = triplets[i];
        assert(triplets@[i as int] == (row, col, v));
        let ghost pre = triplets@.subrange(0, i as int);
        let ghost next = triplets@.subrange(0, i + 1);
        assert(next.drop_last() =~= pre);
        assert(next.last() == (row, col, v));
        if row == col && r[row].is_none() {
            r.set(row, Some(v));
        }
        i = i + 1;
        assert(r@ =~= Seq::new(
            n as nat,
            |q: int| first_diagonal(triplets@.subrange(0, i as int), q as usize),
        ));
    }
    assert(triplets@.subrange(0, triplets@.len() as int) =~= triplets@);
    r
}

} // verus!
