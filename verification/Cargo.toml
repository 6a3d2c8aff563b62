[package]
name = "tracey"
version = "0.1.0"
edition = "2021"
publish = false

[dependencies]
serde = { version = "*", features = ["derive"] }
serde_json = "*"
walkdir = "*"
ureq = { version = "*", default-features = false }
tokio = { version = "*", features = ["rt-multi-thread", "sync", "macros", "time"] }
miette = "*"
owo-colors = "*"
