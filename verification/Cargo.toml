[package]
name = "ln_resource_mgr"
version = "0.1.0"
edition = "2021"
publish = false

[dependencies]
bitcoin = "*"
rand = "*"
csv = "*"
clap = { version = "*", features = ["derive"] }
humantime = "*"
hex = "*"
async-trait = "*"
