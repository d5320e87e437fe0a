pub mod autodiff;
pub mod errors;
pub mod gaussian_approximation;
pub mod transform;
