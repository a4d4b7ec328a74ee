[package]
name = "duplicate_checker"
version = "0.1.0"
edition = "2021"
publish = false

[dependencies]
kamadak-exif = "0.5"
sha2 = "0.10"
glob = "0.3"
image = "0.23"
img_hash = "3"
opencv = "*"
