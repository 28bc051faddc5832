[package]
name = "filebin"
version = "0.1.0"
edition = "2021"
publish = false

[dependencies]
sled = "0.34"
sha3 = "0.10"
base64 = "0.13"
brotli = "3"
uuid = { version = "1", features = ["v4"] }
axum = { version = "0.6", features = ["multipart"] }
tokio = { version = "1", features = ["full"] }
serde = { version = "1", features = ["derive"] }
serde_json = "1"
regex = "1"
