[package]
name = "rmdev"
version = "0.0.1"
edition = "2021"
publish = false

[dependencies]
clap = { version = "4", features = ["derive"] }
dialoguer = "0.11"
ratatui = "0.27"
rayon = "1"
tokio = { version = "1", features = ["rt-multi-thread"] }
unicode-width = "0.1"
