[package]
name = "ubl"
version = "0.1.0"
edition = "2021"
publish = false

[dependencies]
blake3 = { version = "=1.8.7", features = ["pure"] }
sha2 = "=0.10.9"
base64 = "=0.22.1"
ed25519-dalek = "=2.2.0"
unicode-normalization = "=0.1.26"
chrono = "=0.4.45"
data-encoding = "=2.11.1"
serde = { version = "=1.0.229", features = ["derive"] }
serde_json = "=1.0.154"
thiserror = "=1.0.69"
anyhow = "=1.0.104"
once_cell = "=1.21.4"
axum = "=0.7.9"
tokio = { version = "=1.54.1", features = ["full"] }
tower-http = { version = "=0.5.2", features = ["cors", "limit", "timeout"] }
metrics = "=0.23.1"
metrics-exporter-prometheus = { version = "=0.15.3", default-features = false }
clap = { version = "=4.6.7", features = ["derive", "env"] }
colored = "=2.2.0"
tracing = "=0.1.44"
tracing-subscriber = { version = "=0.3.23", features = ["env-filter"] }
reqwest = { version = "0.12", default-features = false, features = ["blocking", "json"] }
