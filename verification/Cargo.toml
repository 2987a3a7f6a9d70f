[package]
name = "linux_agent"
version = "0.1.0"
edition = "2021"
publish = false

[dependencies]
hostname = "=0.4.2"
serde = { version = "=1.0.229", features = ["derive"] }
serde_json = "=1.0.154"
clap = { version = "=4.6.7", features = ["derive"] }
anyhow = "=1.0.104"
aya = "=0.14.0"
