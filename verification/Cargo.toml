[package]
name = "runtime_utils"
version = "0.1.0"
edition = "2021"
publish = false

[dependencies]
anyhow = "1"
flume = "0.11"
hyper = { version = "0.14", features = ["stream"] }
tokio = { version = "1", features = ["rt"] }
