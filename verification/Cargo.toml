[package]
name = "logmine"
version = "0.1.0"
edition = "2021"
publish = false

[dependencies]
regex = "1"
dashmap = "*"
clap = { version = "4", features = ["derive"] }
