[package]
name = "rustics"
version = "0.1.0"
edition = "2021"
publish = false

[dependencies]
tokio = { version = "1", features = ["rt-multi-thread", "net", "io-util", "time", "sync", "macros"] }
log = "0.4"
env_logger = "0.11"

[dev-dependencies]
bincode = "1"
serde = "1"
