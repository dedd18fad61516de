[package]
name = "in_mem_fs"
version = "0.1.0"
edition = "2021"
publish = false

[dependencies]
fuser = { version = "0.14", default-features = false }
clap = "4"
env_logger = "0.11"
libc = "0.2"
log = "0.4"
