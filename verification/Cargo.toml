[package]
name = "stignore"
version = "0.1.0"
edition = "2021"
publish = false

[dependencies]
anyhow = "1"
clap = { version = "3.2", features = ["derive"] }
question = "0.2"

[dev-dependencies]
regex = "1"
