[package]
name = "jarvis"
version = "0.1.0"
edition = "2021"
publish = false

[dependencies]
regex = "=1.13.1"
reqwest = { version = "=0.12.28", default-features = false, features = ["json", "stream", "cookies"] }
serde = { version = "=1.0.229", features = ["derive"] }
serde_json = "=1.0.154"
chrono = "=0.4.45"
md-5 = "=0.10.6"
hex = "=0.4.3"
base64 = "=0.22.1"
urlencoding = "=2.1.3"
chinese_holiday = "=2026.0.1"
tokio = { version = "=1.54.1", features = ["rt", "time", "fs", "process", "sync"] }
futures-util = "=0.3.34"
keyring = "=3.6.3"
