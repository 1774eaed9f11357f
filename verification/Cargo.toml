[package]
name = "sig_bitmap"
version = "0.1.0"
edition = "2021"
publish = false

[dependencies]
textwrap = "*"
clap = { version = "*", features = ["derive"] }
