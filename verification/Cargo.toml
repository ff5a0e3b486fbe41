[package]
name = "acestream_proxy"
version = "0.1.0"
edition = "2021"
publish = false

[dependencies]
bytes = "1"
serde_json = "1"
