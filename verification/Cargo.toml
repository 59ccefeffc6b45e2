[package]
name = "courier"
version = "0.1.0"
edition = "2021"
publish = false

[dependencies]
url = "=2.5.8"
pulldown-cmark = { version = "0.12", default-features = false, features = ["html"] }
serde = { version = "=1.0.229", features = ["derive"] }
serde_json = "=1.0.154"
toml = "0.8"
tokio = { version = "1", features = ["full"] }
axum = "0.8"
tower-http = { version = "0.6", features = ["cors", "fs"] }
chrono = "0.4"
chrono-tz = "0.10"
tokio-cron-scheduler = "0.13"
uuid = { version = "1", features = ["v4"] }
async-trait = "0.1"
atom_syndication = "0.12"
rss = "2"
scraper = "0.20"
tracing = "0.1"
tracing-subscriber = { version = "0.3", features = ["env-filter"] }
tracing-appender = "0.2"
thiserror = "1"
anyhow = "1"
