//! Errors of the Laplace (Gaussian) approximation of a posterior.

use vstd::prelude::*;

use crate::gmrf_core::types::GmrfError;
use crate::gmrf_observation::errors::ObservationError;

verus! {

/// Errors of the Gauss-Newton mode search and of building its result.
#[derive(Debug)]
pub enum GaussianApproximationError {
    Gmrf(GmrfError),
    Observation(ObservationError),
    MissingPrecisionMatrix,
    NonFiniteStep,
}

impl From<GmrfError> for GaussianApproximationError {
    fn from(err: GmrfError) -> (r: Self) {
        GaussianApproximationError::Gmrf(err)
    }
}

impl vstd::std_specs::convert::FromSpecImpl<GmrfError> for GaussianApproximationError {
    open spec fn obeys_from_spec() -> bool {
        true
    }

    open spec fn from_spec(v: GmrfError) -> Self {
        GaussianApproximationError::Gmrf(v)
    }
}

impl From<ObservationError> for GaussianApproximationError {
    fn from(err: ObservationError) -> (r: Self) {
        GaussianApproximationError::Observation(err)
    }
}

impl vstd::std_specs::convert::FromSpecImpl<ObservationError> for GaussianApproximationError {
    open spec fn obeys_from_spec() -> bool {
        true
    }

    open spec fn from_spec(v: ObservationError) -> Self {
        GaussianApproximationError::Observation(v)
    }
}

} // verus!
