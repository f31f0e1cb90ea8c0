[package]
name = "baml_engine"
version = "0.1.0"
edition = "2021"
publish = false

[dependencies]
serde = { version = "1", features = ["derive"] }
serde_json = "1"
indexmap = "2"
anyhow = "1"
uuid = { version = "1", features = ["v4"] }
either = "1"
log = "0.4"
