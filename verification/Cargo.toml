[package]
name = "mcp_local_router"
version = "0.1.0"
edition = "2021"
publish = false

[dependencies]
anyhow = "1"
axum = "0.8"
clap = { version = "4", features = ["derive"] }
futures = "0.3"
log = "0.4"
process-wrap = { version = "8", features = ["tokio1"] }
rand = "0.9"
rmcp = { version = "0.8", features = ["client", "server", "transport-child-process", "transport-io"] }
serde = { version = "1", features = ["derive"] }
serde_json = "1"
tokio = { version = "1", features = ["full"] }
tokio-stream = "0.1"
tokio-util = "0.7"
tracing = "0.1"
tracing-log = "0.2"
tracing-subscriber = { version = "0.3", features = ["env-filter"] }
