[package]
name = "held"
version = "0.1.0"
edition = "2021"
publish = false

[dependencies]
unicode-segmentation = "1"
crossterm = "0.27"
syntect = { version = "5", default-features = false, features = ["default-fancy"] }
