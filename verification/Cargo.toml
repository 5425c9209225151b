[package]
name = "qrxfil"
version = "0.1.0"
edition = "2021"
publish = false

[dependencies]
base64 = "0.13"
clap = "2"
csv = "1"
image = "0.23"
pandoc = "0.8"
qr_code = "2"
qrcode = "0.12"
serde = { version = "1", features = ["derive"] }
