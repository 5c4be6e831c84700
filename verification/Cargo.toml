[package]
name = "voxable"
version = "0.5.3"
edition = "2021"
publish = false

[dependencies]
regex = "1"
chrono = "0.4"
dirs = "6"
serde = { version = "1", features = ["derive"] }
serde_json = "1"
uuid = { version = "1", features = ["v4"] }
parking_lot = "0.12"
log = "0.4"
env_logger = "0.11"
tokio = { version = "1", features = ["rt"] }
reqwest = { version = "0.12", default-features = false, features = ["json", "rustls-tls"] }
cpal = "0.15"
whisper-rs = "0.15"
