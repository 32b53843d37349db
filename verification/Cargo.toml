[package]
name = "eventfold_db"
version = "0.1.0"
edition = "2021"
publish = false

[dependencies]
crc32fast = "=1.5.4"
lru = "=0.19.0"
uuid = { version = "=1.29.0", features = ["v4"] }
serde_json = "=1.0.154"
tonic = "=0.14.9"
tonic-prost = "0.14"
prost = "0.14"
tokio = { version = "=1.54.1", features = ["full"] }
tokio-stream = { version = "=0.1.19", features = ["net"] }
async-stream = "=0.3.6"
futures-core = "=0.3.34"
bytes = "=1.12.1"
tracing = "=0.1.44"
tracing-subscriber = { version = "=0.3.23", features = ["env-filter"] }
metrics = "=0.24.6"
metrics-exporter-prometheus = { version = "=0.18.3", default-features = false }
axum = "=0.8.9"
crossterm = "=0.29.0"
ratatui = "=0.30.2"
clap = { version = "=4.6.7", features = ["derive"] }
anyhow = "=1.0.104"
thiserror = "=2.0.21"

[dev-dependencies]
tempfile = "=3.27.0"
