[package]
name = "cometix"
version = "0.1.0"
edition = "2021"
publish = false

[dependencies]
chrono = "0.4"
iocraft = "*"
async-channel = "2"
futures-timer = "3"
