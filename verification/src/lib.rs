//! Verified building blocks of a Gaussian Markov random field toolkit: mesh
//! topology and its text import, neighbourhood graphs for spatial priors,
//! solver and error vocabularies shared by the numerical layers.

pub mod gmrf_autodiff;
pub mod gmrf_core;
pub mod gmrf_fem;
pub mod gmrf_latent;
pub mod gmrf_observation;
pub mod gmrf_spde;
pub mod gmrf_viz;
