[package]
name = "aflak"
version = "0.1.0"
edition = "2021"
publish = false

[dependencies]
itertools = "0.10"
permutator = "0.4"
ndarray = "0.15"
