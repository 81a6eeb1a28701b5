[package]
name = "bema"
version = "0.1.0"
edition = "2021"
publish = false

[dependencies]
image = "*"
syntect = { version = "*", default-features = false, features = ["default-fancy"] }
crossterm = "*"
tempfile = "*"
blockish = "*"
macroquad = "*"
