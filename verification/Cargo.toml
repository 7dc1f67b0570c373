[package]
name = "uavcan_socketcan"
version = "0.1.0"
edition = "2021"

[dependencies]
socketcan = "1.7"
