[package]
name = "rq"
version = "0.1.0"
edition = "2021"
publish = false

[dependencies]
anyhow = "*"
clap = { version = "*", features = ["derive"] }
colored = "*"
serde_json = "*"
serde_yaml = "*"
toml = "*"
