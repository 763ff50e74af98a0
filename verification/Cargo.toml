[package]
name = "gridworld"
version = "0.1.0"
edition = "2021"
publish = false

[dependencies]
tokio = { version = "1", features = ["sync", "rt-multi-thread", "macros", "time", "signal", "net", "io-util"] }
tokio-util = { version = "0.7", features = ["codec"] }
bytes = "1"
futures = "0.3"
rand = "0.8"
log = "0.4"
env_logger = "0.10"
anyhow = "1"
tokio_kcp = "*"
