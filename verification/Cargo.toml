[package]
name = "bdredis"
version = "0.1.0"
edition = "2021"
publish = false

[dependencies]
regex = "1"
anyhow = "1"
tokio = { version = "1", features = ["rt-multi-thread", "macros", "sync", "fs", "io-util", "signal"] }
pilota = "*"
volo = "*"
volo-thrift = "*"
tracing = "0.1"
tracing-subscriber = "0.3"
lazy_static = "1"
