//! Errors for latent model construction.

use vstd::prelude::*;

verus! {

/// Errors raised while building latent models and their neighbourhood graphs.
#[derive(Debug)]
pub enum LatentModelError {
    /// Inputs do not satisfy required constraints.
    InvalidParameters(&'static str),
    /// Graph data are inconsistent with requested dimensions.
    InvalidGraph(&'static str),
    /// Precision matrices are required for composition but missing.
    MissingPrecision,
    /// Dimensions of component models do not align for composition.
    DimensionMismatch,
}

} // verus!
