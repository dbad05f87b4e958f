[package]
name = "sakoku"
version = "0.3.0"
edition = "2021"
publish = false

[dependencies]
clap = { version = "4", features = ["derive"] }
ignore = "0.4"
