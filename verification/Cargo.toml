[package]
name = "lazydraft"
version = "0.1.0"
edition = "2021"
publish = false

[dependencies]
serde_yaml = "0.9"
chrono = "0.4"
walkdir = "2"
notify = "*"
toml = "*"
serde = { version = "1", features = ["derive"] }
serde_json = "1"
