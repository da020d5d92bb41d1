[package]
name = "cola_store"
version = "0.1.0"
edition = "2021"
publish = false

[dependencies]
axum = { version = "0.6", features = ["multipart"] }
futures = "0.3"
tokio = { version = "1", features = ["rt-multi-thread", "macros", "io-util", "net", "fs"] }
tokio-util = { version = "0.7", features = ["io"] }
tracing = "0.1"
tracing-subscriber = { version = "0.3", features = ["env-filter"] }
