[package]
name = "state_store"
version = "0.1.0"
edition = "2021"
publish = false

[dependencies]
sled = "0.34"
serde = { version = "1", features = ["derive"] }
serde_json = "1"
matrix-sdk-common = "0.2.0"
futures = "0.3"
tracing = "0.1"
