[package]
name = "jrn"
version = "0.1.0"
edition = "2021"
publish = false

[dependencies]
chrono = "*"
clap = { version = "*", features = ["derive"] }
crossterm = "*"
dialoguer = "*"
dirs-next = "*"
git2 = { version = "*", default-features = false }
termimad = "*"
walkdir = "*"
