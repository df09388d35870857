[package]
name = "duenger"
version = "0.1.0"
edition = "2021"
publish = false

[dependencies]
bytes = "1"
rppal = "*"
serde = { version = "1", features = ["derive"] }
tokio = { version = "1", features = ["rt-multi-thread"] }
warp = "0.3"
