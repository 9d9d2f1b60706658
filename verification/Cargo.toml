[package]
name = "krt"
version = "0.1.0"
edition = "2021"
publish = false

[dependencies]
chrono = "*"
rand = "0.9"
signal-hook = "*"
serde = { version = "1", features = ["derive"] }
serde_json = "1"
clap = { version = "4", features = ["derive"] }
crossterm = "*"
sysinfo = "*"
