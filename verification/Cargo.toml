[package]
name = "rpi_mini_os"
version = "0.1.0"
edition = "2021"
publish = false

[dependencies]
font8x8 = "0.3"
lazy_static = "1"
spin = "0.9"
