[package]
name = "w5500"
version = "0.1.0"
edition = "2021"
publish = false

[dependencies]
bit_field = "*"
embedded-hal = "*"
embedded-nal = "*"
nb = "*"
