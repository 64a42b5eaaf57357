[package]
name = "wg-subscriber"
version = "0.1.0"
edition = "2021"
publish = false

[dependencies]
anyhow = "1"
base64 = "0.22"
blake3 = "1"
ctrlc = "3"
env_logger = "0.11"
hostname = "0.4"
ipnet = "2"
local-ip-address = "0.6"
log = "0.4"
rand = "0.8"
rumqttc = "0.24"
rustls = "0.22"
rustls-native-certs = "0.6"
rustls-pemfile = "1"
serde = { version = "1", features = ["derive"] }
serde_json = "1"
tempfile = "3"
x25519-dalek = { version = "2", features = ["static_secrets"] }
zstd = "0.13"
