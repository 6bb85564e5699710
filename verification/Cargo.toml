[package]
name = "chaoschain"
version = "0.1.0"
edition = "2021"
publish = false

[dependencies]
sha2 = "0.10"
blake3 = "1"
hex = "0.4"
rand = "0.8"
serde = { version = "1", features = ["derive"] }
serde_json = "1"
base64 = "0.22"
tokio = { version = "1", features = ["rt-multi-thread", "sync", "macros", "time"] }
thiserror = "1"
anyhow = "1"
async-trait = "0.1"
ed25519-dalek = { version = "2", features = ["rand_core"] }
clap = { version = "4", features = ["derive"] }
