pub mod errors;
pub mod graph;
pub mod models;
