[package]
name = "wadconv"
version = "0.1.0"
edition = "2021"
publish = false

[dependencies]
png = "0.17"
serde = { version = "1", features = ["derive"] }
serde_json = "1"
clap = { version = "3.2", features = ["derive"] }
