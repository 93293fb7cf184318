[package]
name = "herdr"
version = "0.1.0"
edition = "2021"
publish = false

[dependencies]
serde = { version = "1", features = ["derive"] }
serde_json = "1"
schemars = "1"
ratatui = "0.29"
crossterm = "0.28"
bytes = "1"
unicode-width = "0.2"

[dev-dependencies]
