[package]
name = "http-proxy-client-async"
version = "0.1.0"
edition = "2021"
publish = false

[dependencies]
httparse = "1"
futures = "0.3"
futures-io = "0.3"
futures-util = { version = "0.3", features = ["io"] }
