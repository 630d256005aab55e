[package]
name = "chartacritty"
version = "0.1.0"
edition = "2021"
publish = false

[dependencies]
percent-encoding = "1"
hyper = { version = "0.14", features = ["client", "http1", "tcp"] }
tokio = { version = "1", features = ["rt-multi-thread", "sync", "time"] }
serde = { version = "1", features = ["derive"] }
serde_json = "1"
serde_yaml = "0.8"
chrono = "0.4"
log = "0.4"
