[package]
name = "grey"
version = "0.1.0"
edition = "2021"
publish = false

[dependencies]
ed25519-dalek = { version = "2", features = ["rand_core"] }
rand = "0.8"
blake2 = "0.10"
tokio = { version = "1", features = ["time"] }
tracing = "0.1"
