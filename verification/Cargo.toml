[package]
name = "aw_server"
version = "0.1.0"
edition = "2021"
publish = false

[dependencies]
rocket = { version = "0.5", features = ["json"] }
serde = { version = "1", features = ["derive"] }
schemars = "0.8"
jsonwebtoken = "9"
chrono = { version = "0.4", features = ["serde"] }
serde_json = "1"
