[package]
name = "depot_tools"
version = "0.1.0"
edition = "2021"
publish = false

[dependencies]
cached = "*"
clap = { version = "4", features = ["derive"] }
dirs = "*"
either = "1"
serde = { version = "1", features = ["derive"] }
serde_json = "1"
