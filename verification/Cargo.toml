[package]
name = "plico"
version = "0.1.0"
edition = "2021"
publish = false

[dependencies]
im = "15"
rand = "0.8"
prettytable-rs = "0.10"
