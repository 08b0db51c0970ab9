[package]
name = "payment_lifecycle"
version = "0.1.0"
edition = "2021"
publish = false

[dependencies]
soroban-sdk = { version = "=23.5.3", features = ["hazmat-address"] }
