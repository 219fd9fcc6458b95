[package]
name = "hnparser"
version = "0.1.0"
edition = "2021"
publish = false

[dependencies]
regex = "=1.13.1"
timeago = { version = "=0.6.1", default-features = false }
anyhow = "=1.0.104"
tokio = { version = "=1.54.1", features = ["full"] }
reqwest = { version = "=0.13.5", default-features = false, features = ["json", "native-tls", "charset", "http2"] }
serde = { version = "=1.0.229", features = ["derive"] }
toml = "=1.2.1"
serde_json = "=1.0.149"
lettre = { version = "=0.11.23", features = ["tokio1", "tokio1-native-tls"] }
axum = "=0.8.9"
askama = "=0.16.1"
log = "=0.4.35"
env_logger = "=0.11.11"
futures = "=0.3.34"
chrono = "=0.4.45"
