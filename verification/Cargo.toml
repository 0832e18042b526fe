[package]
name = "fsengine"
version = "0.1.0"
edition = "2021"
publish = false

[dependencies]
chrono = "*"
base64 = "*"
urlencoding = "*"
regex = "*"
dirs = "*"
notify = "*"
trash = "*"
open = "*"
walkdir = "*"
zip = "*"
