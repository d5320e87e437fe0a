[package]
name = "gmrf"
version = "0.1.0"
edition = "2021"
publish = false

[dependencies]
petgraph = "0.6"
faer = "0.22"
nalgebra = "0.33"
nalgebra-sparse = "0.10"
rand = "0.8"
rand_distr = "0.4"
statrs = "0.18"
thiserror = "1"
plotters = { version = "0.3", default-features = false, features = ["svg_backend"] }
