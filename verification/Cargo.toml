[package]
name = "harlan"
version = "0.1.0"
edition = "2021"
publish = false

[dependencies]
font8x8 = { version = "0.3", default-features = false }
log = "0.4"
uefi = "*"
uefi-raw = "*"
