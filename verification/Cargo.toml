[package]
name = "demon_deduce"
version = "0.1.0"
edition = "2021"
publish = false

[dependencies]
arboard = "*"
colored = "*"
regex = "*"
