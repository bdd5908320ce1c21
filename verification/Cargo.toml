[package]
name = "db_checksum"
version = "0.1.0"
edition = "2021"
publish = false

[dependencies]
ahash = "0.8"
clap = { version = "4", features = ["derive"] }
eyre = "0.6"
serde_json = "1"
tracing = "0.1"
