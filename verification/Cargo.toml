[package]
name = "ledgerbot"
version = "0.1.0"
edition = "2021"
publish = false

[dependencies]
regex = "=1.13.1"
chrono = { version = "=0.4.45", default-features = false, features = ["std", "clock"] }
rust_decimal = "=1.43.0"
serde = { version = "=1.0.229", features = ["derive"] }
serde_yaml = "=0.9.34"
tokio = { version = "=1.54.1", features = ["full"] }
log = "=0.4.35"
pretty_env_logger = "=0.5.0"
clap = { version = "=4.6.7", features = ["derive"] }
async-trait = "=0.1.92"
