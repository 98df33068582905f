[package]
name = "mcpg_plugin_reliability_rate_limit"
version = "0.1.0"
edition = "2021"
publish = false

[dependencies]
dashmap = "6"
metrics = "0.24"
serde = { version = "1", features = ["derive"] }
serde_json = "1"
tokio = { version = "1", features = ["rt"] }
tracing = "0.1"
