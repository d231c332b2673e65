[package]
name = "blockdev"
version = "0.1.0"
edition = "2021"
publish = false

[dependencies]
crc = "1"
uuid = { version = "1", features = ["v4"] }
devicemapper = "*"
