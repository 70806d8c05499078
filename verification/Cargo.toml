[package]
name = "goose"
version = "0.1.0"
edition = "2021"
publish = false

[dependencies]
blake3 = "1"
lru = "*"
tiktoken-rs = "*"
indexmap = "2"
minijinja = "2"
chrono = { version = "0.4", default-features = false, features = ["clock", "std"] }
serde_json = "1"
serde_yaml = "0.9"
serde = { version = "1", features = ["derive"] }
tokio = { version = "1", features = ["sync"] }
anyhow = "1"
rmcp = { version = "*", default-features = false }

[dev-dependencies]
