[package]
name = "dynamo_llm"
version = "0.1.0"
edition = "2021"
publish = false

[dependencies]
serde_json = "1"
serde = { version = "1", features = ["derive"] }
uuid = { version = "1", features = ["v4"] }
prometheus = { version = "0.14", default-features = false }
futures = "0.3"
async-stream = "0.3"
tokio = { version = "1", features = ["rt", "sync", "time", "macros"] }
once_cell = "1"
parking_lot = "0.12"
anyhow = "1"
thiserror = "2"
tracing = "0.1"
