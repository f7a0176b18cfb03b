[package]
name = "pathtracer"
version = "0.1.0"
edition = "2021"
publish = false

[dependencies]
nalgebra = "*"
rand = "*"
rand_distr = "*"
image = "*"
