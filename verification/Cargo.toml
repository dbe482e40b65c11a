[package]
name = "database"
version = "0.1.0"
edition = "2021"
publish = false

[dependencies]
acursor = "*"
axum = "0.6"
tokio = { version = "1", features = ["full"] }
