[package]
name = "pwgen_rs"
version = "0.1.0"
edition = "2021"
publish = false

[dependencies]
anyhow = "*"
clap = { version = "*", features = ["derive"] }
console = "*"
owo-colors = "*"
rand = "*"
zeroize = "*"
