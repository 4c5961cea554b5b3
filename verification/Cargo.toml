[package]
name = "tomate"
version = "0.1.0"
edition = "2021"
publish = false

[dependencies]
anyhow = "1"
chrono = "0.4"
clap = { version = "4", features = ["derive"] }
clap-verbosity-flag = "2"
colored = "2"
directories = "5"
env_logger = "0.11"
human-panic = "2"
log = "0.4"
prettytable-rs = "0.10"
serde = { version = "1", features = ["derive"] }
serde_json = "1"
toml = "0.8"
