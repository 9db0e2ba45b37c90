[package]
name = "sift"
version = "0.1.0"
edition = "2021"
publish = false

[dependencies]
anyhow = "1"
chrono = "0.4"
sha2 = "0.10"
clap = { version = "4", features = ["derive"] }
serde = { version = "1", features = ["derive"] }
serde_json = "1"
toml = "0.8"
rusqlite = { version = "0.32", features = ["bundled"] }
ignore = "0.4"
ratatui = "0.29"
crossterm = "0.28"
candle-core = "0.8"
candle-nn = "0.8"
candle-transformers = "0.8"
hf-hub = { version = "0.3", default-features = false, features = ["online"] }
tokenizers = { version = "0.20", default-features = false, features = ["onig"] }
