[package]
name = "tp"
version = "0.1.0"
edition = "2021"
publish = false

[dependencies]
actix = "0.13"
actix-rt = "2"
anyhow = "1"
clap = { version = "4", features = ["derive"] }
futures = "0.3"
rand = "0.8"
serde = { version = "1", features = ["derive"] }
serde_json = "1"
tokio = { version = "1", features = ["full"] }
tokio-util = "0.7"
