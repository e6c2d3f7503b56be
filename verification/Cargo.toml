[package]
name = "image_derivatives"
version = "0.1.0"
edition = "2021"
publish = false

[dependencies]
kamadak-exif = "0.6"
image = { version = "0.25", default-features = false, features = ["jpeg", "png", "gif", "webp"] }
walkdir = "2"
zip = { version = "2", default-features = false }
