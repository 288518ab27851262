[package]
name = "qemu_uart"
version = "0.1.0"
edition = "2021"

[dependencies]
critical-section = { version = "*", features = ["std"] }
