[package]
name = "offline_feature"
version = "0.1.0"
edition = "2021"
publish = false

[dependencies]
gethostname = "*"
rand = "*"
regex = "*"
once_cell = "*"
