[package]
name = "recipe_book"
version = "0.1.0"
edition = "2021"
publish = false

[dependencies]
scraper = "=0.29.0"
regex = "=1.13.1"
reqwest = { version = "=0.12.28", default-features = false, features = ["cookies", "rustls-tls"] }
futures = "=0.3.34"
tokio = { version = "=1.54.1", features = ["rt-multi-thread", "macros"] }
serde = { version = "=1.0.229", features = ["derive"] }
serde_json = "=1.0.154"
anyhow = "=1.0.104"
juniper = "=0.16.2"
rocket = { version = "0.5", features = ["json"] }
