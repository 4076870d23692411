[package]
name = "grpc_lb"
version = "0.1.0"
edition = "2021"
publish = false

[dependencies]
arc-swap = "1"
dashmap = "6"
fastrand = "2"
futures-util = "0.3"
rand = "0.9"
serde = { version = "1", features = ["derive"] }
tokio = { version = "1", features = ["rt", "sync", "time"] }
tokio-stream = { version = "0.1", features = ["sync"] }
tracing = "0.1"
