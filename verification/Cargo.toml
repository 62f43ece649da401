[package]
name = "uni_addr"
version = "0.1.0"
edition = "2021"
publish = false

[dependencies]
serde = "1"
socket2 = { version = "*", features = ["all"] }
tokio = { version = "1", features = ["net"] }
wrapper-lite = "*"
