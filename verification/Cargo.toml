[package]
name = "ds4"
version = "0.1.0"
edition = "2021"
publish = false

[dependencies]
anyhow = "1"
byteorder = "1"
clap = { version = "4", features = ["derive"] }
env_logger = "0.11"
libc = "0.2"
log = "0.4"
parking_lot = "0.12"
rand = "0.8"
rustyline = "14"
thiserror = "1"
