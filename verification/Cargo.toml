[package]
name = "eslrs"
version = "0.1.0"
edition = "2021"
publish = false

[dependencies]
multimap = "*"
serde_json = "1"
tokio = { version = "1", features = ["net", "io-util", "time", "rt", "macros", "sync"] }
