[package]
name = "notify"
version = "0.1.0"
edition = "2021"
publish = false

[dependencies]
resize = "=0.8.9"
log = "=0.4.34"
env_logger = "=0.11.11"
atty = "=0.2.14"
smithay-client-toolkit = { version = "=0.21.1", default-features = false, features = ["calloop"] }
wayland-client = "=0.31.15"
