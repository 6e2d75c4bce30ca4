[package]
name = "orderbook_challenge"
version = "0.1.0"
edition = "2021"
publish = false

[dependencies]
rust_decimal = "1"
rust_decimal_macros = "1"
serde = { version = "1", features = ["derive"] }
serde_json = "1"
tokio = { version = "1", features = ["full"] }
tokio-tungstenite = { version = "0.20", features = ["rustls-tls-webpki-roots"] }
tungstenite = "0.20"
futures = "0.3"
tokio-stream = "0.1"
log = "0.4"
env_logger = "0.10"
clap = { version = "4", features = ["derive"] }
url = "2"
tonic = "0.10"
prost = "0.12"
async-stream = "0.3"
