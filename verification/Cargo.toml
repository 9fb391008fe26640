[package]
name = "chunky_encryption"
version = "0.1.0"
edition = "2021"

[dependencies]
aes-gcm = "0.10"
rand = "0.9"
clap = { version = "4", features = ["derive"] }
tar = "0.4"
