[package]
name = "termnode"
version = "0.1.0"
edition = "2021"
publish = false

[dependencies]
unicode-segmentation = "1"
unicode-width = "0.2"
crossterm = "0.29"
log = "0.4"
