[package]
name = "dynamo_llm"
version = "0.1.0"
edition = "2021"
publish = false

[dependencies]
anyhow = "1"
async-openai = { version = "=0.43.0", default-features = false, features = ["chat-completion-types"] }
axum = "=0.8.9"
dashmap = "=6.2.1"
derive_builder = "0.20"
futures = "0.3"
http = "=1.5.0"
serde = { version = "=1.0.229", features = ["derive"] }
serde_json = { version = "=1.0.154", features = ["preserve_order"] }
tokio = { version = "=1.54.1", features = ["macros", "rt", "rt-multi-thread", "sync", "time"] }
tokio-util = "0.7"
tracing = "0.1"
url = { version = "2", features = ["serde"] }
utoipa = "5"
uuid = { version = "=1.29.0", features = ["v4", "serde"] }
validator = { version = "0.20", features = ["derive"] }
