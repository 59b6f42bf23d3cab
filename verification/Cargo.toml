[package]
name = "safetensors_browser"
version = "0.1.0"
edition = "2021"
publish = false

[dependencies]
bytes = "*"
clap = { version = "*", features = ["derive"] }
color-eyre = "*"
crossterm = "*"
futures = "*"
fuzzy-matcher = "*"
hf-hub = { version = "*", features = ["tokio"] }
indicatif = "*"
ratatui = "*"
reqwest = "*"
safetensors = "*"
serde = { version = "*", features = ["derive"] }
serde_json = "*"
tempfile = "*"
tokio = { version = "*", features = ["rt-multi-thread", "macros"] }
xdg = "*"
