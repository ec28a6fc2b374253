[package]
name = "slipframe"
version = "0.1.0"
edition = "2021"
publish = false

[dependencies]
memchr = "2"
bytes = "1"
tokio-util = { version = "0.7", features = ["codec"] }
