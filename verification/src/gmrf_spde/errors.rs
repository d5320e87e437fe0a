//! Errors of SPDE discretization.

use vstd::prelude::*;

use crate::gmrf_core::types::GmrfError;
use crate::gmrf_fem::errors::FemError;

verus! {

/// Errors raised while discretizing an SPDE.
#[derive(Debug)]
pub enum SpdeError {
    InvalidParameters(&'static str),
    UnsupportedAlpha(u32),
    Fem(FemError),
    Core(GmrfError),
}

impl From<FemError> for SpdeError {
    fn from(err: FemError) -> (r: Self) {
        SpdeError::Fem(err)
    }
}

impl vstd::std_specs::convert::FromSpecImpl<FemError> for SpdeError {
    open spec fn obeys_from_spec() -> bool {
        true
    }

    open spec fn from_spec(v: FemError) -> Self {
        SpdeError::Fem(v)
    }
}

impl From<GmrfError> for SpdeError {
    fn from(err: GmrfError) -> (r: Self) {
        SpdeError::Core(err)
    }
}

impl vstd::std_specs::convert::FromSpecImpl<GmrfError> for SpdeError {
    open spec fn obeys_from_spec() -> bool {
        true
    }

    open spec fn from_spec(v: GmrfError) -> Self {
        SpdeError::Core(v)
    }
}

} // verus!
