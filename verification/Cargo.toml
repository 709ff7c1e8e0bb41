[package]
name = "radioxide"
version = "0.1.0"
edition = "2021"
publish = false

[dependencies]
brotli = "*"
rand = "*"
tokio = { version = "*", features = ["full"] }
tokio-tungstenite = "*"
futures-util = "*"
