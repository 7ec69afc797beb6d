[package]
name = "mcrizzledizzle"
version = "0.1.0"
edition = "2021"
publish = false

[dependencies]
flate2 = "=1.1.10"
regex = "=1.13.1"
rhai = { version = "=1.27.0", features = ["sync"] }
rhai-rand = "=0.2.0"
serde = { version = "=1.0.229", features = ["derive"] }
toml = "=1.1.8"
ctrlc = "=3.5.2"
simple_logger = { version = "=5.2.0", features = ["threads"] }
log = "=0.4.35"
rand = "=0.9.5"
