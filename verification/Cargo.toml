[package]
name = "snake_engine"
version = "0.1.0"
edition = "2021"
publish = false

[dependencies]
serde = { version = "1", features = ["derive"] }
serde_json = "1"
httparse = "1"
log = "0.4"
env_logger = "*"
