[package]
name = "monb"
version = "0.1.0"
edition = "2021"
publish = false

[dependencies]
clap = { version = "*", features = ["cargo"] }
brightness = { version = "*", features = ["blocking"] }
log = "*"
colored = "*"
