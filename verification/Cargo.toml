[package]
name = "qrcode_png"
version = "0.4.1"
edition = "2021"
publish = false

[dependencies]
png = "0.17"
qrcodegen = "1.8"
