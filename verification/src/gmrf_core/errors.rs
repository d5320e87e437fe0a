//! Errors of GMRF construction in terms of shapes and factorizations.

use vstd::prelude::*;

verus! {

/// Errors that can occur while constructing or manipulating a GMRF.
#[derive(Debug)]
pub enum GmrfError {
    /// Occurs when mean and precision dimensions do not align.
    DimensionMismatch { mean_len: usize, precision_rows: usize, precision_cols: usize },
    /// Raised when the precision matrix is not symmetric positive definite.
    NotPositiveDefinite,
    /// Raised when attempting to sample with an invalid factorization.
    InvalidFactorization,
}

} // verus!
