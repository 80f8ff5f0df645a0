[package]
name = "typing_sounds"
version = "0.1.0"
edition = "2021"
publish = false

[dependencies]
rand = "0.8"
toml = "0.8"
rodio = { version = "0.19", default-features = false, features = ["mp3"] }
device_query = "*"
