[package]
name = "rafka_core"
version = "0.1.0"
edition = "2021"
publish = false

[dependencies]
axum = { version = "0.7", features = ["ws"] }
futures = "0.3"
tokio = { version = "1", features = ["full"] }
tracing-subscriber = "0.3"
