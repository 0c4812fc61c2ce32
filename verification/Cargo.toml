[package]
name = "vela"
version = "0.1.0"
edition = "2021"
publish = false

[dependencies]
anyhow = "*"
clap = { version = "*", features = ["derive"] }
dirs = "*"
image = "*"
rand = "*"
serde_json = "*"
sha2 = "*"
time = { version = "*", features = ["formatting"] }
walkdir = "*"
which = "*"
