[package]
name = "agent_memory_rs"
version = "0.1.0"
edition = "2021"
publish = false

[dependencies]
anyhow = "1"
async-trait = "0.1"
chrono = "0.4"
serde = { version = "1", features = ["derive"] }
serde_json = "1"
rusqlite = { version = "*", features = ["bundled"] }
sqlite-vec = "*"
dirs = "*"
clap = { version = "4", features = ["derive"] }
tokio = { version = "1", features = ["rt-multi-thread", "macros", "sync", "signal", "net"] }
tracing = "0.1"
tracing-subscriber = { version = "0.3", features = ["env-filter"] }
rmcp = { version = "*", features = ["server", "transport-io"] }
candle-core = "*"
candle-nn = "*"
candle-transformers = "*"
tokenizers = { version = "*", default-features = false, features = ["onig"] }
hf-hub = { version = "=0.4.3", default-features = false, features = ["ureq"] }
