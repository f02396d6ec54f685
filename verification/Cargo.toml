[package]
name = "pacman_outdated"
version = "0.1.0"
edition = "2021"
publish = false

[dependencies]
bytes = "1"
flate2 = "1"
tar = "0.4"
reqwest = { version = "0.12", default-features = false, features = ["blocking"] }
