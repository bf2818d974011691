[package]
name = "ruthenium"
version = "0.1.0"
edition = "2021"
publish = false

[dependencies]
argon2 = "=0.6.0"
base64 = "=0.22.1"
jsonwebtoken = { version = "=11.1.0", features = ["rust_crypto"] }

[dev-dependencies]
serde_json = "=1.0.151"
