[package]
name = "tesseract"
version = "0.1.0"
edition = "2021"
publish = false

[dependencies]
clap = { version = "*", features = ["derive"] }
syn = "*"
quote = "*"
proc-macro2 = "*"
deluxe = "*"
