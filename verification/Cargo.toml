[package]
name = "rust_upload"
version = "0.1.0"
edition = "2021"
publish = false

[dependencies]
priority-queue = "*"
rand = "0.8"
multipart = { version = "*", default-features = false, features = ["server"] }
serde = { version = "*", features = ["derive"] }
serde_json = "*"
dotenvy = "*"
