[package]
name = "tinyrenderer"
version = "0.1.0"
edition = "2021"
publish = false

[dependencies]
failure = "=0.1.8"
nalgebra = "=0.35.0"
obj-rs = "*"
png = "=0.18.1"
