[package]
name = "danmaku"
version = "0.1.0"
edition = "2021"
publish = false

[dependencies]
regex = "1"
htmlize = { version = "1", features = ["unescape"] }
ed25519-dalek = "2"
serde = { version = "1", features = ["derive"] }
serde_json = "1"
tokio = { version = "1", features = ["rt-multi-thread", "macros", "sync", "time", "signal", "net"] }
poem = { version = "*", features = ["websocket"] }
futures-util = "0.3"
tracing = "0.1"
tracing-subscriber = { version = "0.3", features = ["env-filter"] }
dotenvy = "0.15"
envconfig = "*"
eyre = "0.6"
