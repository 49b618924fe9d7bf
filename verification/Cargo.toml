[package]
name = "corpora_store"
version = "0.1.0"
edition = "2021"
publish = false

[dependencies]
serde = { version = "*", features = ["derive"] }
serde_json = "*"
tokio-postgres = "*"
qrcodegen = "*"
