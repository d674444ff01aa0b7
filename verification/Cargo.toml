[package]
name = "web_crawler"
version = "0.1.0"
edition = "2021"
publish = false

[dependencies]
scraper = "*"
vader_sentiment = "0.1"
reqwest = { version = "0.12", default-features = false, features = ["rustls-tls"] }
tokio = { version = "1", features = ["full"] }
futures = "0.3"
cursive = { version = "0.21", default-features = false, features = ["crossterm-backend"] }
lazy_static = "1"
