[package]
name = "near_intents_derivatives"
version = "1.0.0"
edition = "2021"
publish = false

[dependencies]
near-sdk = { version = "=5.29.1", features = ["unit-testing"] }
serde_json = "=1.0.154"
sha2 = "=0.10.9"
