[package]
name = "realtime_rs"
version = "0.1.0"
edition = "2021"
publish = false

[dependencies]
serde_json = "*"
futures = "*"
url = "*"
tokio = { version = "*", features = ["rt-multi-thread", "macros", "time", "net", "sync"] }
tokio-tungstenite = "*"
futures-util = "*"
