[package]
name = "zedis"
version = "0.1.0"
edition = "2021"
publish = false

[dependencies]
ahash = "=0.8.12"
anyhow = "=1.0.104"
chrono = "=0.4.45"
redis = { version = "=1.8.0", features = ["aio", "tokio-comp"] }
tracing = "=0.1.44"
