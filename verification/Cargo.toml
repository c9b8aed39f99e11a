[package]
name = "ftp_client"
version = "0.1.0"
edition = "2021"
publish = false

[dependencies]
encoding = "0.2"
console = "0.15"

[dev-dependencies]
regex = "1"
