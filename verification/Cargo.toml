[package]
name = "sensor_agent"
version = "0.1.0"
edition = "2021"
publish = false

[dependencies]
regex = "*"
serde = { version = "*", features = ["derive"] }
serde_json = "*"
toml = "*"
clap = "*"
signal-hook = "*"
reqwest = { version = "*", default-features = false, features = ["blocking", "json"] }
sensors = "*"
