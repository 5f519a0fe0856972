[package]
name = "kriptofs"
version = "0.1.0"
edition = "2021"
publish = false

[dependencies]
aes-gcm = "*"
sha2 = "*"
fuser = "*"
libc = "*"
clap = "*"
env_logger = "*"
