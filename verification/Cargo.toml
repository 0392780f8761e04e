[package]
name = "mini_nube"
version = "0.1.0"
edition = "2021"
publish = false

[dependencies]
chrono = "0.4"
csv = "1"
rusqlite = "*"
walkdir = "2"
clap = { version = "4", features = ["derive"] }
anyhow = "1"
thiserror = "*"
