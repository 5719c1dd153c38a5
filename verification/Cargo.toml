[package]
name = "offtopic_bot"
version = "0.1.0"
edition = "2021"
publish = false

[dependencies]
anyhow = "1"
clap = { version = "4", features = ["derive"] }
env_logger = "0.10"
futures = "0.3"
hyper = "=0.13.10"
hyper-proxy = "=0.7.0"
log = "0.4"
serde = { version = "1", features = ["derive"] }
sled = "=0.34.7"
telegram-bot = "=0.8.0"
tokio = { version = "=0.2.25", features = ["macros", "rt-core"] }
toml = "0.8"

[dev-dependencies]
bincode = "1"
serde_json = "1"
