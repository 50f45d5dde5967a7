[package]
name = "handwave"
version = "0.1.0"
edition = "2021"
publish = false

[dependencies]
ht16k33 = "*"
embedded-hal = "0.2"
