[package]
name = "ferrite_web"
version = "0.1.0"
edition = "2021"
publish = false

[dependencies]
serde = { version = "1", features = ["derive"] }
serde_json = "1"
chrono = "0.4"
thiserror = "2"
gloo-net = { version = "0.6", default-features = false, features = ["http", "json"] }
