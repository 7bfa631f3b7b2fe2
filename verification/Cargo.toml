[package]
name = "geo_tiles"
version = "0.1.0"
edition = "2021"
publish = false

[dependencies]
image = { version = "*", default-features = false, features = ["png"] }
miniproj = "*"
miniproj-ops = "*"
reqwest = { version = "*", default-features = false, features = ["blocking"] }
tilemath = "*"
