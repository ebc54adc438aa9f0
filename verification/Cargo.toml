[package]
name = "towny_bot"
version = "0.1.0"
edition = "2021"
publish = false

[dependencies]
anyhow = "=1.0.104"
axum = "=0.8.9"
chrono = { version = "=0.4.45", default-features = false, features = ["clock", "std"] }
config = "=0.15.27"
jsonwebtoken = "=9.3.1"
reqwest = { version = "=0.12.28", default-features = false, features = ["multipart", "rustls-tls"] }
serde = { version = "=1.0.229", features = ["derive"] }
serde_json = "=1.0.154"
tokio = { version = "=1.54.1", features = ["full"] }
tracing = "=0.1.44"
tracing-subscriber = { version = "=0.3.23", features = ["env-filter"] }
