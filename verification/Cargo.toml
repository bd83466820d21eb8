[package]
name = "blockchainpow"
version = "0.1.0"
edition = "2021"
publish = false

[dependencies]
axum = "0.6"
chrono = "0.4"
clap = { version = "4", features = ["derive"] }
hex = "0.4"
once_cell = "1"
rand = "0.8"
reqwest = { version = "0.11", default-features = false, features = ["json"] }
secp256k1 = { version = "0.28", features = ["rand-std", "serde"] }
serde = { version = "1", features = ["derive"] }
serde_json = "1"
sha2 = "0.10"
tokio = { version = "1", features = ["full"] }
uuid = { version = "1", features = ["v4"] }
