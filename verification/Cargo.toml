[package]
name = "shell_config"
version = "0.1.0"
edition = "2021"
publish = false

[dependencies]
regex = "=1.11.3"
serde = { version = "1", features = ["derive"] }
