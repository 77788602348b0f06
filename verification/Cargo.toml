[package]
name = "bench_telemetry"
version = "0.1.0"
edition = "2021"
publish = false

[dependencies]
anyhow = "1"
clap = { version = "4", features = ["derive"] }
env_logger = "*"
futures = "0.3"
log = "0.4"
reqwest = { version = "*", default-features = false }
rocket = "0.5"
rppal = "*"
serde = { version = "1", features = ["derive"] }
serde_json = "1"
spidev = "*"
tokio = { version = "1", features = ["rt-multi-thread", "macros", "time", "net", "sync"] }
tokio-util = { version = "0.7", features = ["codec"] }
toml = "*"
