[package]
name = "trend_arb"
version = "0.1.0"
edition = "2021"
publish = false

[dependencies]
anyhow = "=1.0.104"
base64 = "=0.22.1"
bytes = "=1.12.1"
chrono = "=0.4.45"
env_logger = "=0.11.11"
futures = "=0.3.34"
futures-util = "=0.3.34"
getrandom = "=0.4.3"
hex = "=0.4.3"
hmac = "=0.12.1"
lexical-core = "=1.0.6"
log = "=0.4.35"
memchr = "=2.8.3"
moka = { version = "=0.12.16", features = ["sync"] }
rust_decimal = "=1.43.0"
rustls = { version = "=0.23.46", default-features = false, features = ["ring", "std", "tls12", "logging"] }
serde = { version = "=1.0.229", features = ["derive"] }
serde_json = "=1.0.154"
sha2 = "=0.10.9"
sonic-rs = "=0.5.10"
tokio = { version = "=1.54.1", features = ["full"] }
tokio-rustls = { version = "=0.26.6", default-features = false, features = ["ring", "tls12", "logging"] }
tokio-tungstenite = { version = "=0.27.0", features = ["rustls-tls-webpki-roots"] }
tungstenite = "=0.27.0"
url = "=2.5.8"
uuid = { version = "=1.29.0", features = ["v4"] }
webpki-roots = "=0.26.11"
