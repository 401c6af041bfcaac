[package]
name = "qs_notary"
version = "0.1.0"
edition = "2021"
publish = false

[dependencies]
anyhow = "*"
axum = "*"
chrono = "*"
clap = { version = "*", features = ["derive"] }
colored = "*"
hex = "*"
pqcrypto-dilithium = "*"
pqcrypto-traits = "*"
serde = { version = "*", features = ["derive"] }
serde_json = "*"
sha3 = "*"
tokio = { version = "*", features = ["full"] }
ureq = { version = "*", features = ["json"] }
walkdir = "*"
