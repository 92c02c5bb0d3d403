[package]
name = "rustible_callback"
version = "0.1.0"
edition = "2021"
publish = false

[dependencies]
anyhow = "1"
async-trait = "0.1"
chrono = "0.4"
colored = "2"
dirs = "5"
hostname = "0.4"
indexmap = "2"
indicatif = "0.17"
parking_lot = "0.12"
reqwest = { version = "0.12", default-features = false }
serde = { version = "1", features = ["derive"] }
serde_json = "1"
serde_yaml = "0.9"
similar = "2"
thiserror = "1"
tokio = { version = "1", features = ["rt", "rt-multi-thread", "macros", "sync", "fs"] }
toml = "0.8"
tracing = "0.1"
