[package]
name = "sevenate"
version = "0.1.0"
edition = "2021"
publish = false

[dependencies]
bit = "0.1"
log = "0.4"
rand = "0.8"
