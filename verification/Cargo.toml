[package]
name = "scuttlebutt"
version = "0.1.0"
edition = "2021"
publish = false

[dependencies]
base64 = "0.13"
chrono = "0.4"
hex = "0.4"
hmac = "0.12"
rand = "0.8"
sha2 = "0.10"
