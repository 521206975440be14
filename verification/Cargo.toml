[package]
name = "integer_encoding"
version = "0.1.0"
edition = "2021"
publish = false

[dependencies]
async-trait = "0.1"
futures-util = { version = "0.3", features = ["io"] }
tokio = { version = "1", features = ["io-util"] }
