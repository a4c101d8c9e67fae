[package]
name = "downloads_meta"
version = "0.1.0"
edition = "2021"
publish = false

[dependencies]
natord = "*"
serde = { version = "*", features = ["derive"] }
serde_json = "*"
anyhow = "*"
