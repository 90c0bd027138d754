[package]
name = "oracle_proxy"
version = "0.1.0"
edition = "2021"
publish = false

[dependencies]
chrono = { version = "=0.4.45", features = ["serde"] }
serde = { version = "=1.0.229", features = ["derive"] }
serde_json = "=1.0.154"
tokio = { version = "=1.54.1", features = ["full"] }
tokio-tungstenite = "=0.24.0"
futures-util = "=0.3.34"
reqwest = { version = "=0.12.28", default-features = false, features = ["json"] }
tracing = "=0.1.44"
tracing-subscriber = { version = "=0.3.23", features = ["env-filter"] }
anyhow = "=1.0.104"
thiserror = "=1.0.69"
dashmap = "=6.2.1"
dotenv = "=0.15.0"
axum = "=0.7.9"
crossterm = "=0.28.1"
ratatui = "=0.29.0"
duckdb = "=1.20000.1"
