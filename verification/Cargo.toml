[package]
name = "codex_relay"
version = "0.1.0"
edition = "2021"
publish = false

[dependencies]
serde = { version = "1", features = ["derive"] }
serde_json = "=1.0.154"
tracing = "0.1"
uuid = { version = "=1.29.0", features = ["v4"] }
