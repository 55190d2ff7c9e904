[package]
name = "spartan-parallel"
version = "0.1.0"
edition = "2021"
publish = false

[dependencies]
curve25519-dalek = "3.2"
merlin = "3.0"
rand = "0.7"
digest = "0.8"
sha3 = "0.8"
serde = { version = "1.0", features = ["derive"] }
bincode = "1.3"
