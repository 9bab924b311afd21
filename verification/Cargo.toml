[package]
name = "timers"
version = "0.1.0"
edition = "2021"
publish = false

[dependencies]
log = "=0.4.34"

[dev-dependencies]
serde_json = "=1.0.151"
