[package]
name = "kc_core"
version = "0.1.0"
edition = "2021"
publish = false

[dependencies]
blake3 = "1"
chacha20poly1305 = "0.10"
argon2 = "0.5"
regex = "1"
serde = { version = "1", features = ["derive"] }
serde_json = "1"
rusqlite = { version = "0.31", features = ["bundled"] }
walkdir = "2"
zip = { version = "0.6", default-features = false }
uuid = { version = "1", features = ["v4"] }
tokio = { version = "1", features = ["rt"] }
aws-config = { version = "1", features = ["behavior-version-latest"] }
aws-sdk-s3 = "1"
aws-sdk-kms = "1"
aws-sdk-secretsmanager = "1"
