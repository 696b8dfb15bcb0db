[package]
name = "ractor_actors"
version = "0.1.0"
edition = "2021"
publish = false

[dependencies]
bytes = "1"
ractor = "0.15"
tokio = { version = "1", features = ["net", "io-util", "rt", "sync", "time"] }
tokio-rustls = { version = "0.26", default-features = false }
tracing = "0.1"
