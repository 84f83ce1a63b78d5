[package]
name = "wedding_api"
version = "0.1.0"
edition = "2021"
publish = false

[dependencies]
rand = "*"
uuid = { version = "*", features = ["v4"] }
csv = "*"
rust_decimal = "*"
