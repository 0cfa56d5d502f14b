[package]
name = "lure"
version = "0.1.0"
edition = "2021"
publish = false

[dependencies]
aes = "=0.7.5"
anyhow = "=1.0.104"
base64 = "=0.21.7"
bytes = "=1.12.1"
flate2 = "=1.1.10"
image-meta = "=0.1.4"
num = "=0.4.3"
rand = "=0.8.8"
reqwest = { version = "=0.11.27", default-features = false, features = ["json", "rustls-tls"] }
rsa = "=0.8.2"
rsa-der = "=0.3.0"
serde = { version = "=1.0.229", features = ["derive"] }
serde_json = "=1.0.154"
sha1 = "=0.10.7"
sha2 = "=0.10.9"
tokio = { version = "=1.54.1", features = ["full"] }
toml = "=0.7.8"
valence_protocol = "0.2.0-alpha.1"

[dev-dependencies]
cfb8 = "=0.7.1"
