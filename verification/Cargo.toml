[package]
name = "particles"
version = "0.1.0"
edition = "2021"
publish = false

[dependencies]
ggez = "=0.5.1"
hsluv = "0.1"
mint = "=0.5.9"
rand = "=0.7.3"
