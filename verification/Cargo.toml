[package]
name = "pine16"
version = "0.1.0"
edition = "2021"
publish = false

[dependencies]
parse_int = "0.9"
byteorder = "1"
anyhow = "1"
log = "0.4"
env_logger = "0.11"
clap = { version = "4", features = ["derive"] }
colored = "3"
miette = { version = "7", features = ["fancy"] }
thiserror = "2"
simple-stopwatch = "*"
pixels = "0.15"
winit = "0.30"
ringbuf = "0.4"
tinyaudio = "1"
