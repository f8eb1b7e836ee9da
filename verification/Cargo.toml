[package]
name = "namiashi"
version = "0.1.0"
edition = "2021"
publish = false

[dependencies]
env_logger = { version = "=0.11.11", default-features = false }
libc = "0.2"
log = "0.4"
serde = { version = "1", features = ["derive"] }
serde_json = "1"
toml = "0.8"
zenoh = { version = "=1.10.2", default-features = false, features = ["transport_tcp", "transport_udp"] }
