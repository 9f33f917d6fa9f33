[package]
name = "ultimate_control"
version = "0.1.0"
edition = "2021"
publish = false

[dependencies]
bytes = "1"
futures = "0.3"
miniz_oxide = "0.8"
tokio = { version = "1", features = ["rt-multi-thread", "net", "time", "sync", "io-util"] }
tokio-util = { version = "0.7", features = ["codec"] }
