[package]
name = "parse_lib"
version = "0.1.0"
edition = "2021"
publish = false

[dependencies]
quick-xml = "*"
serde = { version = "1", features = ["derive"] }
bincode = "1"
log = "0.4"
env_logger = "*"
