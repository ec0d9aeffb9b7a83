[package]
name = "sync_ingest"
version = "0.1.0"
edition = "2021"
publish = false

[dependencies]
async-channel = "=2.5.0"
futures = "=0.3.34"
futures-concurrency = "=7.7.1"
rmp-serde = "=1.3.1"
rmpv = { version = "=1.3.1", features = ["with-serde"] }
tokio = { version = "=1.54.1", features = ["rt", "sync"] }
tracing = "=0.1.44"
uhlc = "=0.8.2"
uuid = "=1.29.0"
