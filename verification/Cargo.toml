[package]
name = "shardnet"
version = "0.1.0"
edition = "2021"
publish = false

[dependencies]
bytes = "1"
glam = "0.29"
serde = { version = "1", features = ["derive"] }
serde_json = "1"
uuid = { version = "1", features = ["v4"] }
tokio = { version = "1", features = ["full"] }
redis = { version = "0.27", features = ["tokio-comp"] }
axum = "0.7"
reqwest = { version = "0.12", default-features = false, features = ["json"] }
anyhow = "1"
bevy = { version = "0.15", default-features = false }
