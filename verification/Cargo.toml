[package]
name = "goz_scoring"
version = "0.1.0"
edition = "2021"
publish = false

[dependencies]
subtle-encoding = { version = "=0.5.1", features = ["bech32-preview"] }
serde = { version = "=1.0.229", features = ["derive"] }
serde_json = "=1.0.151"
