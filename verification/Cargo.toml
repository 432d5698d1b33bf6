[package]
name = "papilio_core"
version = "0.1.0"
edition = "2021"
publish = false

[dependencies]
sanitize-filename = "*"
encoding_rs = "*"
md5 = "*"
urlencoding = "*"
regex = "*"
walkdir = "*"
lofty = "*"
