[package]
name = "lethe"
version = "0.1.0"
edition = "2021"
publish = false

[dependencies]
chrono = "=0.4.45"
toml = "=0.8.23"
uuid = { version = "=1.29.0", features = ["v4"] }
indexmap = { version = "=2.14.2", features = ["serde"] }
clap = { version = "=4.6.7", features = ["derive"] }
color-eyre = "=0.6.5"
