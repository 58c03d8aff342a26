[package]
name = "uring_reactor"
version = "0.1.0"
edition = "2021"
publish = false

[dependencies]
io-uring = "*"
socket2 = { version = "*", features = ["all"] }
libc = "*"
clap = { version = "*", features = ["derive", "env"] }
ctrlc = "*"
env_logger = "*"
log = "*"
