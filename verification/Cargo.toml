[package]
name = "epdrunner"
version = "0.1.0"
edition = "2021"
publish = false

[dependencies]
shakmaty = "*"
anyhow = "*"
clap = { version = "*", features = ["derive"] }
