[package]
name = "simplebench"
version = "0.1.0"
edition = "2021"
publish = false

[dependencies]
sha2 = "0.10"
chrono = "0.4"
serde = { version = "1", features = ["derive"] }
serde_json = "1"
toml = "0.8"
colored = "2"
clap = { version = "4", features = ["derive"] }
anyhow = "1"
indicatif = "0.17"
default-net = "*"
affinity = "*"
inventory = "0.3"
cargo_metadata = "0.18"
