[package]
name = "anchorkit"
version = "0.1.0"
edition = "2021"
publish = false

[dependencies]
ed25519-dalek = { version = "2", features = ["rand_core"] }
sha2 = "0.10"
hex = "0.4"
clap = { version = "4", features = ["derive"] }
soroban-sdk = "21"

[dev-dependencies]
rand = "0.8"
base64 = "0.22"
