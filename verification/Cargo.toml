[package]
name = "game_server"
version = "0.1.0"
edition = "2021"
publish = false

[dependencies]
uuid = "1"
anyhow = "1"
axum = "0.6"
clap = { version = "4", features = ["derive"] }
env_logger = "0.11"
log = "0.4"
serde = { version = "1", features = ["derive"] }
tokio = { version = "1", features = ["full"] }
