[package]
name = "textbuf"
version = "0.1.0"
edition = "2021"
publish = false

[dependencies]
lru = "0.12"
log = "0.4"
unicode-segmentation = "1"
