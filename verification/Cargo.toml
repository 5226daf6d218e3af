[package]
name = "commcomm"
version = "0.1.0"
edition = "2021"
publish = false

[dependencies]
serde_json = "1"
serde = { version = "1", features = ["derive"] }
flate2 = "1"
toml = "0.8"
clap = "4"
log = "0.4"
env_logger = "0.11"
chrono = "0.4"
serial = "0.4"
serial_enumerate = "*"
tempdir = "0.3"
wait-timeout = "0.2"
