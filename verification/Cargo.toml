[package]
name = "protocol"
version = "0.1.0"
edition = "2021"
publish = false

[dependencies]
bytes = "0.4"
crc = "1.8"
lazy_static = "1"
log = "0.4"
