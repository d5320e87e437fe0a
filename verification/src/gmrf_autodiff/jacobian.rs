//! Errors of the forward-mode differentiation helpers.

use vstd::prelude::*;

verus! {

/// Errors surfaced by autodiff helpers when provided invalid inputs.
#[derive(Debug)]
pub enum AutodiffError {
    /// Input/output dimension mismatch encountered during differentiation.
    DimensionMismatch(&'static str),
}

} // verus!
