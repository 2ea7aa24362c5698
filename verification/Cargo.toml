[package]
name = "rust_ocr"
version = "0.1.0"
edition = "2021"
publish = false

[dependencies]
image = "0.24"
clap = "3"
log = "0.4"
simple_logger = "*"
tesseract = "*"
