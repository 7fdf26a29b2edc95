[package]
name = "socha"
version = "0.1.0"
edition = "2021"
publish = false

[dependencies]
strong-xml = "0.6"
crossbeam-channel = "0.5"
log = "0.4"

[dev-dependencies]
rand = "0.9"
