[package]
name = "ton_abi"
version = "0.1.0"
edition = "2021"
publish = false

[dependencies]
sha2 = "0.10"
chrono = "0.4"
base64 = "0.22"
ed25519-dalek = "1"
