[package]
name = "messenger_core"
version = "0.1.0"
edition = "2021"
publish = false

[dependencies]
rand = "=0.10.3"
sha2 = "=0.11.0"
hex = "=0.4.3"
jsonwebtoken = { version = "=11.1.0", features = ["rust_crypto"] }
serde_json = "=1.0.151"
tokio = { version = "=1.53.2", features = ["full"] }
tokio-stream = "*"
serde = { version = "*", features = ["derive"] }
axum = "*"
log = "*"
env_logger = "*"
dotenv = "*"
