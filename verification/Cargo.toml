[package]
name = "hyperon"
version = "0.1.0"
edition = "2021"
publish = false

[dependencies]
log = "=0.4.34"
semver = { version = "=1.0.28", features = ["serde"] }
serde = { version = "=1.0.229", features = ["derive"] }
serde_json = "=1.0.154"
