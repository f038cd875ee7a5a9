[package]
name = "tcfs"
version = "0.1.0"
edition = "2021"
publish = false

[dependencies]
blake3 = "=1.8.7"
fastcdc = "=3.2.1"
zstd = "=0.13.4"
chacha20poly1305 = "=0.10.1"
hkdf = "=0.12.4"
sha2 = "=0.10.9"
aes-siv = "=0.7.0"
argon2 = "=0.5.3"
bip39 = "=2.2.2"
base64 = "=0.22.1"
rand = "=0.8.8"
age = { version = "=0.11.5", features = ["armor"] }
secrecy = "=0.10.3"
serde = { version = "=1.0.229", features = ["derive"] }
serde_json = "=1.0.154"
toml = "=0.8.23"
