[package]
name = "kaori_rtos"
version = "0.1.0"
edition = "2021"
publish = false

[dependencies]
portable-atomic = "1"

[dev-dependencies]
rand = "0.9"
