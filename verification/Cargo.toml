[package]
name = "kancut"
version = "0.1.0"
edition = "2021"
publish = false

[dependencies]
uuid = { version = "*", features = ["v4"] }
if-addrs = "*"
network-interface = "*"
serde = { version = "*", features = ["derive"] }
log = "*"
env_logger = "*"
chrono = "*"
