[package]
name = "deck"
version = "0.1.0"
edition = "2021"
publish = false

[dependencies]
blake3 = "1"
fuzzy-matcher = "0.3"
serde = { version = "1", features = ["derive"] }
serde_json = "1"
clap = { version = "4", features = ["derive"] }
toml = "*"
