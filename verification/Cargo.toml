[package]
name = "fanwatch"
version = "0.1.0"
edition = "2021"
publish = false

[dependencies]
env_logger = "0.7"
libc = "0.2"
log = "0.4"
structopt = "0.3"
