[package]
name = "halo2_extr"
version = "0.1.0"
edition = "2021"
publish = false

[dependencies]
regex = "1"
itertools = "*"
halo2_proofs = "*"
