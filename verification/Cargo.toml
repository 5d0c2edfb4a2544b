[package]
name = "batch_bench"
version = "0.1.0"
edition = "2021"
publish = false

[dependencies]
rand = "0.8.4"
reqwest = { version = "0.11", features = ["json", "blocking"] }
serde_json = "1.0.81"
env_logger = "0.9.0"
log = "0.4.17"
csv = "1.1.6"
anyhow = "1.0.57"
