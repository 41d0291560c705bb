[package]
name = "nostra"
version = "0.1.0"
edition = "2021"
publish = false

[dependencies]
async-io = "*"
chrono = "*"
futures = "*"
rust-i18n = "*"
serde = { version = "1", features = ["derive"] }
serde_json = { version = "1", features = ["float_roundtrip"] }
url = "2"
