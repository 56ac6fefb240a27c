[package]
name = "devmoji_log"
version = "0.1.0"
edition = "2021"
publish = false

[dependencies]
emojis = "*"
colored = "*"
jiff = "*"
git2 = { version = "*", default-features = false }
clap = { version = "*", features = ["derive"] }
anyhow = "*"
