[package]
name = "loadstone"
version = "0.1.0"
edition = "2021"
publish = false

[dependencies]
blue_hal = "=1.0.0"
nb = "=0.1.3"
ecdsa = "=0.11.1"
p256 = { version = "=0.8.1", features = ["ecdsa"] }
sha2 = "=0.9.9"
