[package]
name = "fileway"
version = "0.1.0"
edition = "2021"
publish = false

[dependencies]
axum = "=0.8.9"
base64 = "=0.22.1"
bcrypt = "=0.19.3"
blake3 = "=1.8.7"
futures-util = "=0.3.34"
jsonwebtoken = { version = "=11.1.0", features = ["rust_crypto"] }
rand = "=0.10.3"
serde = { version = "*", features = ["derive"] }
serde_json = "=1.0.151"
tokio = { version = "=1.53.2", features = ["rt-multi-thread", "net", "fs", "io-util", "time", "macros"] }
tokio-util = { version = "=0.7.19", features = ["io"] }
toml = "*"
