[package]
name = "hyperswarm"
version = "0.1.0"
edition = "2021"
publish = false

[dependencies]
blake2 = "0.10"
rand = "0.8"
snow = "0.9"
tokio = { version = "1", features = ["net", "rt", "rt-multi-thread", "sync", "time", "macros"] }
bytes = "1"
