[package]
name = "marcopolo"
version = "0.4.0"
edition = "2021"
publish = false

[dependencies]
base64 = "0.22"
clap = { version = "4", features = ["derive"] }
colored = "2"
futures = "0.3"
indicatif = "0.17"
percent-encoding = "2"
regex = "1"
reqwest = { version = "0.12", default-features = false, features = ["json", "rustls-tls"] }
rustc-hash = "2"
scraper = "0.20"
serde = { version = "1", features = ["derive"] }
tokio = { version = "1", features = ["full"] }
url = "2"
