pub mod errors;
pub mod gmsh;
pub mod mesh;
pub mod text;
pub mod assembly;
