[package]
name = "rust_pipeline"
version = "0.1.0"
edition = "2021"
publish = false

[dependencies]
scraper = "*"
reqwest = { version = "0.12", default-features = false, features = ["json", "multipart", "rustls-tls"] }
serde = { version = "1", features = ["derive"] }
serde_json = "1"
anyhow = "1"
tokio = { version = "1", features = ["macros", "rt-multi-thread", "fs", "process", "time"] }
clap = { version = "4", features = ["derive"] }
chrono = "0.4"
rand = "0.8"
image = { version = "0.25", default-features = false, features = ["jpeg", "webp"] }
aws-config = { version = "1", features = ["behavior-version-latest"] }
aws-sdk-s3 = "1"
