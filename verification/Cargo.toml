[package]
name = "whisburn_engine"
version = "0.1.0"
edition = "2021"
publish = false

[dependencies]
serde = { version = "1", features = ["derive"] }
serde_json = "1"
half = "2"
safetensors = "*"
clap = { version = "4", features = ["derive", "env"] }
anyhow = "1"
flate2 = "1"
ureq = { version = "3", default-features = false }
indicatif = "*"
