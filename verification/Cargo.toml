[package]
name = "fs_tree"
version = "0.1.0"
edition = "2021"
publish = false

[dependencies]
rayon = "*"
serde = { version = "*", features = ["derive"] }
sysinfo = "*"
walkdir = "*"
