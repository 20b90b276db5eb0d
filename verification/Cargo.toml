[package]
name = "ordlebot"
version = "0.1.0"
edition = "2021"
publish = false

[dependencies]
roaring = "*"
mersenne-twister-m = "*"
comfy-table = "*"
