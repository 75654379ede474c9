[package]
name = "jw_news_reader"
version = "0.1.0"
edition = "2021"
publish = false

[dependencies]
ego-tree = "=0.11.1"
regex = "=1.13.1"
scraper = "=0.29.0"
serde_json = "=1.0.154"
url = "=2.5.8"
serde = { version = "=1.0.229", features = ["derive"] }
thiserror = "=2.0.21"
axum = "=0.8.9"
reqwest = "=0.13.5"
tokio = { version = "=1.54.1", features = ["macros", "rt-multi-thread", "net"] }
tracing = "=0.1.44"
tracing-subscriber = { version = "=0.3.23", features = ["env-filter"] }
