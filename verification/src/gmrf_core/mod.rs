pub mod errors;
pub mod solver;
pub mod types;
pub mod linear;
