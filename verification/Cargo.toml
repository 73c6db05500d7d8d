[package]
name = "squallar-overlays"
version = "0.1.0"
edition = "2021"
publish = false

[dependencies]
bytemuck = "1"
chrono = "0.4"
futures = "0.3"
log = "0.4"
serde_json = "1"
web-time = "1"
