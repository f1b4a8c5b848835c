[package]
name = "adblock_bridge"
version = "0.1.0"
edition = "2021"
publish = false

[dependencies]
adblock = "=0.9.8"
base64 = "=0.22.1"
libc = "=0.2.190"
rmp = "=0.8.11"
serde_json = "1"
