[package]
name = "gravity_sim"
version = "0.1.0"
edition = "2021"
publish = false

[dependencies]
derive_builder = "0.12"
kiss3d = "0.35"
nalgebra = "0.30"
rand = "0.8"
