//! Shape checks of the differentiable observation likelihoods.

use vstd::prelude::*;

use crate::gmrf_observation::errors::ObservationError;

verus! {

/// Checks that a prediction has as many entries as there are observations.
pub fn check_prediction_length(len: usize, expected: usize) -> (r: Result<(), ObservationError>)
    ensures
        r == if len == expected {
            Ok::<(), ObservationError>(())
        } else {
            Err(ObservationError::DimensionMismatch("prediction length must match observed data"))
        },
{
    if len != expected {
        return Err(ObservationError::DimensionMismatch("prediction length must match observed data"));
    }
    Ok(())
}

} // verus!
