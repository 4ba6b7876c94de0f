[package]
name = "theme_catalog"
version = "0.1.0"
edition = "2021"
publish = false

[dependencies]
walkdir = "*"
plist = "*"

[dev-dependencies]
tempfile = "*"
fs-err = "*"
