pub mod errors;
pub mod mesh;
