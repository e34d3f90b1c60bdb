[package]
name = "dsplit"
version = "0.1.0"
edition = "2021"
publish = false

[dependencies]
clap = "2"
grid = "*"
image = { version = "0.23", default-features = false, features = ["png"] }
lab = "*"
