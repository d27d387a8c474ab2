[package]
name = "ofplayer"
version = "0.1.0"
edition = "2021"
publish = false

[dependencies]
base64 = "=0.22.1"
chrono = "=0.4.45"
uuid = { version = "=1.29.0", features = ["v4"] }
url = "=2.5.8"
quick-xml = "=0.42.0"
serde = { version = "=1.0.229", features = ["derive"] }
serde_json = "=1.0.154"
rusqlite = { version = "=0.41.1", features = ["bundled"] }
reqwest = { version = "0.12", default-features = false }
futures-util = "0.3"
