[package]
name = "dirsummary"
version = "0.1.0"
edition = "2021"
publish = false

[dependencies]
encoding_rs = "*"
clap = { version = "*", features = ["derive"] }
walkdir = "*"
arboard = { version = "*", default-features = false }
