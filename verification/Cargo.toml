[package]
name = "crab_reader"
version = "0.1.0"
edition = "2021"
publish = false

[dependencies]
ammonia = "=3.3.4"
anyhow = "=1.0.104"
chrono = { version = "=0.4.45", features = ["serde"] }
futures = "=0.3.34"
log = "=0.4.35"
opml = "=1.1.6"
reqwest = "=0.11.27"
rss = "=2.1.2"
serde = { version = "=1.0.229", features = ["derive"] }
serde_json = "=1.0.154"
thiserror = "=1.0.69"
