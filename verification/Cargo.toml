[package]
name = "wallet_kv"
version = "0.1.0"
edition = "2021"
publish = false

[dependencies]
rusqlite = { version = "=0.40.2", features = ["bundled"] }
pbkdf2 = "*"
sha2 = "*"
chacha20poly1305 = "*"
rand = "*"
