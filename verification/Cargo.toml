[package]
name = "websocat-api"
version = "0.1.0"
edition = "2021"
publish = false

[dependencies]
tinyvec = "1"
anyhow = "1"
futures = "0.1"
tokio-io = "0.1"
