[package]
name = "webdav_request"
version = "0.1.0"
edition = "2021"
publish = false

[dependencies]
percent-encoding = "2"
reqwest = { version = "0.12", default-features = false }
tokio = { version = "1", default-features = false, features = ["io-util"] }
