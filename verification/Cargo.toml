[package]
name = "cg_stats"
version = "0.1.0"
edition = "2021"
publish = false

[dependencies]
users = "*"
walkdir = "*"
termion = "*"
humantime = "*"
chrono = "*"
systemstat = "*"
