[package]
name = "log_viewer"
version = "0.1.0"
edition = "2021"
publish = false

[dependencies]
regex = "=1.13.1"
serde_json = "=1.0.151"
ratatui = "=0.26.3"
crossterm = "=0.27.0"
copypasta = "=0.10.2"
rfd = { version = "=0.13.0", default-features = false, features = ["xdg-portal", "async-std"] }
anyhow = "=1.0.104"
log = "=0.4.34"
env_logger = "=0.10.2"
