[package]
name = "trash_browser"
version = "0.1.0"
edition = "2021"

[dependencies]
chrono = "*"
sway = "*"
