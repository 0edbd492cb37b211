[package]
name = "respkv"
version = "0.1.0"
edition = "2021"
publish = false

[dependencies]
base64 = "*"
uuid = { version = "*", features = ["v7"] }
clap = { version = "*", features = ["derive"] }
