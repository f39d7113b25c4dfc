[package]
name = "gpt"
version = "0.1.0"
edition = "2021"
publish = false

[dependencies]
crc = "3"
uuid = { version = "1", features = ["v4"] }
clap = "2"
