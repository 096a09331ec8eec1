[package]
name = "maker_web"
version = "0.1.0"
edition = "2021"
publish = false

[dependencies]
crossbeam = "0.8"
memchr = "2"
tokio = { version = "1", features = ["io-util", "macros", "net", "rt", "rt-multi-thread", "time"] }
