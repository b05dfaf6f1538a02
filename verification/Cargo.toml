[package]
name = "speed_cloudflare_cli"
version = "0.1.1"
edition = "2021"

[dependencies]
anyhow = "1"
bytes = "1"
clap = "4"
colored = "2"
futures = "0.3"
indicatif = "0.17"
rand = "0.8"
reqwest = { version = "0.12", default-features = false, features = ["rustls-tls"] }
serde = { version = "1", features = ["derive"] }
serde_json = "1"
tokio = { version = "1", features = ["full"] }
