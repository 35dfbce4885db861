[package]
name = "kuzh"
version = "0.1.0"
edition = "2021"
publish = false

[dependencies]
curve25519-dalek = { version = "4", features = ["rand_core"] }
blake3 = "1"
rand = "0.8"
subtle = "2"
