[package]
name = "sacn"
version = "0.1.0"
edition = "2021"
publish = false

[dependencies]
byteorder = "1"
uuid = { version = "0.8", features = ["v4"] }
socket2 = { version = "0.3", features = ["reuseport"] }
