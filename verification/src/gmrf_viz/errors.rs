//! Error types for visualization utilities.

use vstd::prelude::*;

verus! {

/// Errors of plotting meshes and fields.
#[derive(Debug)]
pub enum VizError {
    Io(std::io::Error),
    Plotting(String),
    DimensionMismatch { expected: usize, actual: usize },
}

impl From<std::io::Error> for VizError {
    fn from(err: std::io::Error) -> (r: Self) {
        VizError::Io(err)
    }
}

impl vstd::std_specs::convert::FromSpecImpl<std::io::Error> for VizError {
    open spec fn obeys_from_spec() -> bool {
        true
    }

    open spec fn from_spec(v: std::io::Error) -> Self {
        VizError::Io(v)
    }
}

} // verus!
