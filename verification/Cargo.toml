[package]
name = "dirscan"
version = "0.1.0"
edition = "2021"
publish = false

[dependencies]
filesize = "*"
serde = { version = "*", features = ["derive"] }
serde_json = "*"
sysinfo = "*"
