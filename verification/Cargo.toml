[package]
name = "titan"
version = "0.1.0"
edition = "2021"
publish = false

[dependencies]
base64 = "=0.22.1"
url = "=2.5.8"
urlencoding = "=2.1.3"
serde_json = "=1.0.154"
uuid = { version = "=1.29.0", features = ["v4"] }
crc32c = "=0.6.9"
aes = "=0.8.4"
sha3 = "=0.10.9"
digest = "=0.10.7"
rand = "=0.9.5"
serde = { version = "=1.0.229", features = ["derive"] }
serde_yaml = "=0.9.34"
tokio = { version = "=1.54.1", features = ["full"] }
anyhow = "=1.0.104"
clap = { version = "=4.6.7", features = ["derive"] }
reqwest = { version = "=0.12.28", default-features = false, features = ["rustls-tls"] }
chrono = "=0.4.45"
aws-lc-rs = "1"
