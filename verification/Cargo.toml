[package]
name = "message_vault"
version = "0.1.0"
edition = "2021"
publish = false

[dependencies]
base64 = "0.13"
schemars = "0.7"
secret-cosmwasm-std = "0.10"
secret-cosmwasm-storage = "0.10"
secret-toolkit = "0.3"
secret-toolkit-crypto = { version = "0.3", default-features = false, features = ["hash", "rand"] }
serde = { version = "1.0", default-features = false, features = ["derive"] }
