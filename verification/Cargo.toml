[package]
name = "venia_consensus"
version = "0.1.0"
edition = "2021"
publish = false

[dependencies]
sha2 = "=0.10.9"
ed25519-dalek = "=2.2.0"
serde = { version = "=1.0.229", features = ["derive"] }
serde_json = "=1.0.154"
bigdecimal = "=0.4.11"
