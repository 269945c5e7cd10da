[package]
name = "ownrs"
version = "0.1.4"
edition = "2021"
publish = false

[dependencies]
anyhow = "1"
chrono = { version = "0.4", features = ["serde"] }
clap = { version = "4", features = ["derive", "env"] }
comfy-table = "7"
csv = "1"
directories = "5"
indicatif = "0.17"
octocrab = "0.44"
reqwest = "0.12"
serde = { version = "1", features = ["derive"] }
serde_json = "1"
serde_yaml = "0.9"
tokio = { version = "1", features = ["rt-multi-thread", "macros", "sync"] }
unicode-width = "0.2"
