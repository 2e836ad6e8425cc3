[package]
name = "bmw"
version = "0.1.0"
edition = "2021"
publish = false

[dependencies]
substring = "=1.4.5"
rand = "=0.8.8"
sha1 = "=0.10.7"
base64 = "=0.21.7"
litrs = "=0.4.2"
url = "=2.5.8"
chrono = "=0.4.45"
proc-macro2 = "=1.0.107"
