[package]
name = "jws"
version = "0.1.0"
edition = "2021"
publish = false

[dependencies]
anyhow = "1"
base64ct = { version = "1", features = ["alloc"] }
ecdsa = { version = "0.16", features = ["verifying"] }
ed25519-dalek = "2"
k256 = "0.13"
serde = { version = "1", features = ["derive"] }
serde_json = "1"
