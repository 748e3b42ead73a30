[package]
name = "rfw"
version = "1.0.1"
edition = "2021"
publish = false

[dependencies]
anyhow = "1"
clap = { version = "4", features = ["derive"] }
hickory-resolver = "0.25"
libc = "0.2"
notify = "8"
serde = { version = "1", features = ["derive"] }
serde_yaml = "0.9"
socket2 = "0.5"
tokio = { version = "1", features = ["full"] }
tokio-util = { version = "0.7", features = ["rt"] }
tracing = "0.1"
tracing-appender = "0.2"
tracing-subscriber = { version = "0.3", features = ["env-filter", "json"] }
