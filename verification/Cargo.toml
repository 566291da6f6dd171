[package]
name = "cybertoken"
version = "0.1.0"
edition = "2021"
publish = false

[dependencies]
base-x = "0.2"
crc32fast = "1"
rand = "0.8"
