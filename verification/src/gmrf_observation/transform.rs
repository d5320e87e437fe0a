//! The identity transform between a latent field and observation space.

use vstd::prelude::*;

use crate::gmrf_observation::errors::ObservationError;

verus! {

/// Identity transform that passes the latent values through unchanged.
pub struct IdentityTransform {
    dimension: usize,
}

impl View for IdentityTransform {
    /// The latent dimension that the transform expects.
    type V = nat;

    closed spec fn view(&self) -> nat {
        self.dimension as nat
    }
}

impl IdentityTransform {
    /// Create an identity transform that expects a fixed latent dimension.
    pub fn new(dimension: usize) -> (t: Self)
        ensures
            t@ == dimension,
    {
        Self { dimension }
    }

    /// Number of outputs produced by the transform.
    pub fn output_dim(&self) -> (n: usize)
        ensures
            n == self@,
    {
        self.dimension
    }

    /// Applies the transform: the latent values themselves, where they have the
    /// expected dimension.
    pub fn pass_through<T: Copy>(&self, latent: &[T]) -> (r: Result<Vec<T>, ObservationError>)
        ensures
            latent@.len() == self@ ==> (r matches Ok(v) && v@ == latent@),
            latent@.len() != self@ ==> r == Err::<Vec<T>, ObservationError>(
                ObservationError::DimensionMismatch(
                    "latent dimension does not match transform output",
                ),
            ),
    {
        if latent.len() != self.dimension {
            return Err(ObservationError::DimensionMismatch(
                "latent dimension does not match transform output",
            ));
        }
        let mut v: Vec<T> = Vec::new();
        let mut i: usize = 0;
        while i < latent.len()
            invariant
                i <= latent@.len(),
                v@ == latent@.subrange(0, i as int),
            decreases latent.len() - i,
        {
            v.push(latent[i]);
            i = i + 1;
            assert(v@ =~= latent@.subrange(0, i as int));
        }
        assert(v@ =~= latent@);
        Ok(v)
    }
}

} // verus!
