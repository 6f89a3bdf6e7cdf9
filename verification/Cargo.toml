[package]
name = "ot"
version = "0.1.0"
edition = "2021"
publish = false

[dependencies]
curve25519-dalek = "=5.0.0"
tiny-keccak = { version = "=2.0.2", features = ["sha3"] }
ring = "=0.17.14"
rand = "=0.8.8"
