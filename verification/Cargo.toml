[package]
name = "drophub_back"
version = "0.1.0"
edition = "2021"
publish = false

[dependencies]
indexmap = "=2.14.2"
ttl_cache = "=0.5.1"
passwords = "=3.1.19"
uuid = { version = "=1.29.1", features = ["v4", "serde"] }
time = "=0.3.55"
rand = "=0.8.8"
base64 = "=0.21.7"
jsonwebtoken = "=9.3.1"
serde = { version = "=1.0.229", features = ["derive"] }
serde_json = "=1.0.154"
tokio = { version = "=1.54.1", features = ["sync", "macros", "rt-multi-thread"] }
jsonrpsee = { version = "0.18", features = ["server"] }
mongodb = "2"
chrono = { version = "0.4", features = ["serde"] }
futures = "0.3"
