[package]
name = "jormungandr"
version = "0.1.0"
edition = "2021"
publish = false

[dependencies]
rust-crypto-wasm = "=0.3.1"
tokio = "0.1"
futures = "0.1"
slog = "2"
structopt = "0.2"
serde = { version = "1", features = ["derive"] }
serde_yaml = "0.8"
actix-web = "0.7"
bytes = "0.4"
http = "0.1"
humantime = "1"
rand = "0.6"
