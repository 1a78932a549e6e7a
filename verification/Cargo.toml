[package]
name = "kanbus"
version = "0.1.0"
edition = "2021"
publish = false

[dependencies]
uuid = { version = "1", features = ["v4", "v5"] }
regex = "1"
rand = "0.8"
owo-colors = "4"
serde = { version = "1", features = ["derive"] }
serde_json = "1"
serde_yaml = "0.9"
chrono = { version = "0.4", features = ["serde"] }
minijinja = "2"
clap = { version = "4", features = ["derive"] }
