[package]
name = "kernel"
version = "0.2.0"
edition = "2021"
publish = false

[dependencies]
spin = "=0.12.3"
x86_64 = { version = "=0.15.5", default-features = false, features = ["instructions"] }
pic8259 = "=0.11.0"
bootloader_api = "=0.11.17"
