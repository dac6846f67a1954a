[package]
name = "eaa"
version = "0.1.0"
edition = "2021"
publish = false

[dependencies]
chrono = "=0.4.45"
regex-lite = "=0.1.9"
uuid = { version = "=1.29.1", features = ["v4"] }
calamine = "0.30"
serde = { version = "=1.0.229", features = ["derive"] }
serde_json = "=1.0.154"
which = "=6.0.3"
tokio = { version = "=1.54.1", features = ["rt", "rt-multi-thread"] }
