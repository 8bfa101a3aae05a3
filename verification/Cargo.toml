[package]
name = "markbook"
version = "0.1.0"
edition = "2021"
publish = false

[dependencies]
anyhow = "=1.0.104"
chrono = { version = "=0.4.45", default-features = false, features = ["alloc"] }
serde_json = "=1.0.154"
zip = { version = "2", default-features = false, features = ["deflate"] }
