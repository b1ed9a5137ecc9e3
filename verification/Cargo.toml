[package]
name = "hackerwear_api"
version = "0.1.0"
edition = "2021"
publish = false

[dependencies]
argon2 = "*"
base64 = "*"
ring = "*"
uuid = { version = "*", features = ["v4"] }
