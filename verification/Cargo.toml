[package]
name = "rnn_core"
version = "0.1.0"
edition = "2021"
publish = false

[dependencies]
chrono = "*"
csv = "*"
flate2 = "*"
serde = "*"
serde_derive = "*"
serde_json = "*"
toml = "*"
ndarray = { version = "*", features = ["serde"] }
actix-web = "*"
actix-cors = "*"
env_logger = "*"
tokio = { version = "*", features = ["full"] }
tokio-cron-scheduler = "*"
ratatui = "*"
