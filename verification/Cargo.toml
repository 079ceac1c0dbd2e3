[package]
name = "storage_layout"
version = "0.1.0"
edition = "2021"
publish = false

[dependencies]
eyre = "0.6"
regex = "1"
