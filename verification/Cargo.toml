[package]
name = "kickoff"
version = "0.2.0"
edition = "2021"
publish = false

[dependencies]
anyhow = "1"
ratatui = "0.29"
serde = { version = "1", features = ["derive"] }
serde_json = "1"
toml = "0.8"
