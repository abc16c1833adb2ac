[package]
name = "matrix_gotify_bridge"
version = "0.1.0"
edition = "2021"
publish = false

[dependencies]
serde_json = "1"
pulldown-cmark = { version = "0.9", default-features = false }
serde = { version = "1", features = ["derive"] }
serde_yaml = "0.9"
thiserror = "1"
anyhow = "1"
log = "0.4"
env_logger = "0.10"
futures = "0.3"
tokio = { version = "1", features = ["macros", "rt-multi-thread", "time", "sync"] }
tokio-tungstenite = { version = "0.21", features = ["rustls-tls-webpki-roots"] }
structopt = "0.3"
matrix-sdk = { version = "0.7", default-features = false, features = ["e2e-encryption", "sqlite", "rustls-tls"] }
