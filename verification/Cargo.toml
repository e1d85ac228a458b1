[package]
name = "photo_works"
version = "0.1.0"
edition = "2021"
publish = false

[dependencies]
chrono = "0.4"
clap = "4"
env_logger = "0.10"
eyre = "0.6"
kamadak-exif = "0.5"
refinery = { version = "0.8", features = ["rusqlite"] }
rusqlite = "0.29"
sha2 = "0.10"
walkdir = "2"
