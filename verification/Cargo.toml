[package]
name = "search_engine"
version = "0.1.0"
edition = "2021"
publish = false

[dependencies]
url = "=2.5.8"
scraper = "=0.29.0"
redis = { version = "=1.8.1", features = ["tokio-comp"] }
reqwest = "=0.13.5"
tokio = { version = "=1.54.1", features = ["full"] }
mongodb = "=3.9.1"
serde = { version = "=1.0.229", features = ["derive"] }
