[package]
name = "nvr_web"
version = "0.1.0"
edition = "2021"
publish = false

[dependencies]
uuid = "*"
url = "*"
serde_json = "*"
