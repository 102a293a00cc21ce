[package]
name = "barmenu"
version = "0.1.0"
edition = "2021"
publish = false

[dependencies]
unicode-segmentation = "*"
freedesktop_entry_parser = "*"
