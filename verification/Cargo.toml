[package]
name = "station_export"
version = "0.1.0"
edition = "2021"
publish = false

[dependencies]
base64 = "0.22"
docx-rs = "0.4"
hmac = "0.12"
sha1 = "0.10"
printpdf = "0.7"
