[package]
name = "sui_core"
version = "0.1.0"
edition = "2021"
publish = false

[dependencies]
anyhow = "1"
async-trait = "0.1"
base64ct = { version = "1", features = ["alloc"] }
bincode = "1"
clap = { version = "3", features = ["derive"] }
colored = "2"
futures = "0.3"
itertools = "0.10"
once_cell = "1"
prometheus_exporter = "0.8"
serde = { version = "1", features = ["derive"] }
serde_json = "1"
tokio = { version = "1", features = ["sync", "time", "rt", "rt-multi-thread", "macros"] }
tokio-stream = "0.1"
tracing = "0.1"
