[package]
name = "traintables"
version = "0.1.0"
edition = "2021"
publish = false

[dependencies]
quick-xml = { version = "=0.39.4", features = ["async-tokio"] }
csv = "=1.4.0"
serde = { version = "=1.0.229", features = ["derive"] }
csv-async = { version = "=1.3.1", features = ["tokio"] }
tokio = { version = "=1.54.1", features = ["full"] }
tokio-util = { version = "=0.7.20", features = ["io"] }
futures = "=0.3.34"
futures-util = "=0.3.34"
reqwest = { version = "=0.12.28", default-features = false, features = ["stream", "rustls-tls"] }
zip = { version = "=2.6.1", default-features = false, features = ["deflate"] }
tracing = "=0.1.44"
tracing-subscriber = "=0.3.23"
anyhow = "=1.0.104"
thiserror = "=2.0.21"
uuid = { version = "=1.29.1", features = ["v4"] }
