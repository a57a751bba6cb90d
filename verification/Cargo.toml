[package]
name = "easy_file"
version = "0.1.0"
edition = "2021"
publish = false

[dependencies]
crypto-hash = "0.3"
aws-sdk-rust = "*"
hyper = "0.10"
url = "1"
