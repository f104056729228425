[package]
name = "fs_guard"
version = "0.1.0"
edition = "2021"
publish = false

[dependencies]
regex = "*"
glob = "*"
encoding_rs_io = "*"
walkdir = "*"
tokio = { version = "*", features = ["rt-multi-thread", "sync", "macros", "time"] }
clap = { version = "*", features = ["derive"] }
anyhow = "*"
base64 = "*"
chrono = "*"
num_cpus = "*"
