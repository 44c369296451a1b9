[package]
name = "axotly"
version = "0.1.0"
edition = "2021"
publish = false

[dependencies]
serde_json = "*"
url = "*"
anyhow = "*"
clap = { version = "*", features = ["derive"] }
owo-colors = "*"
reqwest = { version = "*", default-features = false, features = ["json"] }
tokio = { version = "*", features = ["rt-multi-thread", "macros", "sync", "time"] }
walkdir = "*"
