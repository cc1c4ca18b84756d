[package]
name = "x4_trading"
version = "0.1.0"
edition = "2021"
publish = false

[dependencies]
quick-xml = "0.31"
regex = "1"
flate2 = "1"
serde = { version = "1", features = ["derive"] }
serde_json = "1"
anyhow = "1"
axum = "0.7"
tokio = { version = "1", features = ["full"] }
tower-http = { version = "0.5", features = ["fs"] }
chrono = "0.4"
