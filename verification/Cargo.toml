[package]
name = "cino"
version = "0.1.0"
edition = "2021"
publish = false

[dependencies]
ciborium = "0.2"
serde_cbor = "0.11"
serde_json = "1"
clap = { version = "4", features = ["derive"] }
anyhow = "1"
thiserror = "1"
