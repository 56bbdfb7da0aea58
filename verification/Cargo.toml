[package]
name = "coin_selection"
version = "0.1.0"
edition = "2021"
publish = false

[dependencies]
bitcoin = "0.28"
rand = "0.7"
