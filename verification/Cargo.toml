[package]
name = "odjk_blue"
version = "0.1.0"
edition = "2021"
publish = false

[dependencies]
serde_json = "1"
dirs = "5"
mimalloc = "0.1"
