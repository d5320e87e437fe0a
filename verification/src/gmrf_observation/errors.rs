//! Error types for observation models.

use vstd::prelude::*;

use crate::gmrf_autodiff::jacobian::AutodiffError;

verus! {

/// Errors produced by observation model evaluation.
#[derive(Debug)]
pub enum ObservationError {
    /// The provided inputs are inconsistent (dimension mismatch or missing data).
    DimensionMismatch(&'static str),
    /// A probability was outside the valid open interval (0, 1).
    InvalidProbability,
}

impl From<AutodiffError> for ObservationError {
    fn from(err: AutodiffError) -> (r: Self) {
        match err {
            AutodiffError::DimensionMismatch(msg) => ObservationError::DimensionMismatch(msg),
        }
    }
}

impl vstd::std_specs::convert::FromSpecImpl<AutodiffError> for ObservationError {
    open spec fn obeys_from_spec() -> bool {
        true
    }

    open spec fn from_spec(v: AutodiffError) -> Self {
        match v {
            AutodiffError::DimensionMismatch(msg) => ObservationError::DimensionMismatch(msg),
        }
    }
}

} // verus!
