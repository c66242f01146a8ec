[package]
name = "sportvision_scraper"
version = "0.1.0"
edition = "2021"
publish = false

[dependencies]
scraper = "*"
rand = "*"
clap = { version = "*", features = ["derive"] }
reqwest = { version = "*", default-features = false }
tokio = { version = "*", features = ["rt-multi-thread", "macros"] }

[dev-dependencies]
serde_json = "*"
