[package]
name = "cache_vault"
version = "0.1.0"
edition = "2021"
publish = false

[dependencies]
argon2 = "=0.6.0"
base32 = "=0.5.1"
chacha20poly1305 = "=0.10.1"
chrono = "=0.4.45"
dirs = "=7.0.0"
keyring = { version = "=3.6.3", default-features = false }
sqlx = { version = "=0.9.0", default-features = false, features = ["sqlite", "runtime-tokio"] }
