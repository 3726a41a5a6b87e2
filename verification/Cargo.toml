[package]
name = "icecream_robots"
version = "0.1.0"
edition = "2021"
publish = false

[dependencies]
actix = "=0.13.5"
colored = "=2.2.0"
rand = "=0.8.8"
serde = { version = "=1.0.229", features = ["derive"] }
serde_json = { version = "=1.0.154", features = ["raw_value"] }
tokio = { version = "=1.54.1", features = ["full"] }
tokio-stream = { version = "=0.1.19", features = ["io-util"] }
