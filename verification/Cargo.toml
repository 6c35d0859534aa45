[package]
name = "keccak256"
version = "0.1.0"
edition = "2021"
publish = false

[dependencies]
halo2_proofs = "*"
itertools = "*"
lazy_static = "1"
rand = "0.8"
rand_chacha = "0.3"
ethers-signers = "2"
