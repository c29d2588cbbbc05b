[package]
name = "devserve"
version = "0.1.0"
edition = "2021"
publish = false

[dependencies]
axum = "*"
mimalloc = "*"
notify = "*"
tokio = { version = "*", features = ["full"] }
