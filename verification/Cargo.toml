[package]
name = "clipdeck"
version = "0.1.0"
edition = "2021"
publish = false

[dependencies]
chrono = { version = "0.4", default-features = false, features = ["clock"] }
dirs = "5"
fuzzy-matcher = "0.3"
anyhow = "1"
serde = { version = "1", features = ["derive"] }
serde_json = "1"
rusqlite = { version = "0.32", features = ["bundled"] }
arboard = { version = "3", default-features = false }
async-channel = "2"
log = "0.4"
env_logger = "0.11"
reqwest = { version = "0.12", default-features = false, features = ["json", "stream", "rustls-tls"] }
tokio = { version = "1", features = ["rt", "fs", "io-util"] }
futures-util = "0.3"
x11rb = "0.13"
gtk4 = "0.9"
libadwaita = "0.7"
