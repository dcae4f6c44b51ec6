[package]
name = "othello_engine"
version = "0.1.0"
edition = "2021"
publish = false

[dependencies]
xz2 = { version = "*", features = ["static"] }
byteorder = "*"
threadpool = "*"
