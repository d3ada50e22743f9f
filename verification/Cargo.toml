[package]
name = "qstack"
version = "0.1.0"
edition = "2021"
publish = false

[dependencies]
anyhow = "*"
chrono = "*"
comfy-table = "*"
dialoguer = "*"
owo-colors = "*"
shlex = "*"
