//! Error types for mesh handling and assembly.

use vstd::prelude::*;

verus! {

/// `std::io::Error`, carried through unchanged by the error types that wrap it.
#[verifier::external_type_specification]
#[verifier::external_body]
pub struct ExIoError(std::io::Error);

/// Errors produced by mesh handling and FEM assembly routines.
#[derive(Debug)]
pub enum FemError {
    /// Inputs are inconsistent for the requested operation (e.g., wrong element order).
    InvalidInput(&'static str),
    /// A mesh references nodes that are not present.
    MissingNode,
    /// Gmsh parsing failed.
    GmshParse(String),
    /// IO errors when loading mesh files.
    Io(std::io::Error),
}

impl From<std::io::Error> for FemError {
    fn from(err: std::io::Error) -> (r: Self) {
        FemError::Io(err)
    }
}

impl vstd::std_specs::convert::FromSpecImpl<std::io::Error> for FemError {
    open spec fn obeys_from_spec() -> bool {
        true
    }

    open spec fn from_spec(v: std::io::Error) -> Self {
        FemError::Io(v)
    }
}

} // verus!
