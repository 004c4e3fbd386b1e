[package]
name = "aps"
version = "0.1.0"
edition = "2021"
publish = false

[dependencies]
url = "2"
sha2 = "0.10"
hex = "0.4"
shellexpand = "3"
chrono = "0.4"
serde = { version = "1", features = ["derive"] }
serde_yaml = "0.9"
clap = { version = "4", features = ["derive"] }
console = "0.15"
dialoguer = "0.11"
tempfile = "3"
tracing = "0.1"
tracing-subscriber = "0.3"
walkdir = "2"
thiserror = "1"
