[package]
name = "hippo_party"
version = "0.1.0"
edition = "2021"
publish = false

[dependencies]
rand = "0.4"
rocket = { version = "0.5", features = ["json"] }
serde = { version = "1", features = ["derive"] }
serde_json = "1"
ws = "0.9"
