[package]
name = "vault_store"
version = "0.1.0"
edition = "2021"
publish = false

[dependencies]
aes-gcm = "0.10"
base64 = "0.22"
pbkdf2 = { version = "0.12", features = ["hmac"] }
rand = "0.9"
sha2 = "0.10"
