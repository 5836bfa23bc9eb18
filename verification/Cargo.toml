[package]
name = "kvcache"
version = "0.1.0"
edition = "2021"
publish = false

[dependencies]
blake3 = "*"
async-trait = "*"
axum = "0.6"
clap = { version = "*", features = ["derive"] }
serde = { version = "*", features = ["derive"] }
serde_json = "*"
tokio = { version = "*", features = ["fs", "io-util", "macros", "net", "rt-multi-thread", "sync"] }
