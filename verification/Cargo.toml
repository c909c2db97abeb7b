[package]
name = "chain_core"
version = "0.1.0"
edition = "2021"
publish = false

[dependencies]
parity-scale-codec = { version = "3", features = ["std"] }
secp256k1 = { version = "0.29", features = ["recovery"] }
rand = "0.8"
sled = "0.34"
serde = { version = "1", features = ["derive"] }
serde_json = "1"
