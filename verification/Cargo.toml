[package]
name = "zmk_studio_client"
version = "0.1.0"
edition = "2021"
publish = false

[dependencies]
serialport = "*"
btleplug = "*"
tokio = { version = "*", features = ["rt", "time", "sync"] }
futures = "*"
uuid = "*"
