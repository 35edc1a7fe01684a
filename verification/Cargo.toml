[package]
name = "sollama"
version = "0.1.0"
edition = "2021"
publish = false

[dependencies]
scraper = "=0.29.0"
urlencoding = "=2.1.3"
chrono = "=0.4.45"
reqwest = { version = "=0.13.5", features = ["gzip", "json"] }
tokio = { version = "=1.54.1", features = ["full"] }
futures = "=0.3.34"
indicatif = "=0.18.6"
tracing = "=0.1.44"
tracing-subscriber = "=0.3.23"
serde = { version = "=1.0.229", features = ["derive"] }
thiserror = "=2.0.21"
