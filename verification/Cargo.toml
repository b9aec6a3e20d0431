[package]
name = "unirun"
version = "0.1.0"
edition = "2021"
publish = false

[dependencies]
base64 = "=0.22.1"
libc = "=0.2.191"
psrp-rs = "=1.0.0"
serde = { version = "=1.0.229", features = ["derive"] }
serde_json = "=1.0.154"
toml = "=0.8.23"
winrm-rs = "=1.0.0"
