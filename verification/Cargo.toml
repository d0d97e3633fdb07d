[package]
name = "gk_authenticator"
version = "0.1.0"
edition = "2021"
publish = false

[dependencies]
ring = "*"
data-encoding = "*"
clap = { version = "*", features = ["derive"] }
anyhow = "*"
