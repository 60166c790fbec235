[package]
name = "ai_memory"
version = "0.5.4"
edition = "2021"
publish = false

[dependencies]
anyhow = "1"
chrono = "0.4"
rusqlite = { version = "0.31", features = ["bundled"] }
serde = { version = "1", features = ["derive"] }
serde_json = "1"
toml = "0.8"
tracing = "0.1"
uuid = { version = "1", features = ["v4"] }
