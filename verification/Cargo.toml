[package]
name = "rustscan"
version = "0.1.0"
edition = "2021"
publish = false

[dependencies]
cidr-utils = "=0.6.2"
hickory-resolver = { version = "=0.24.4", features = ["dns-over-rustls"] }
log = "=0.4.35"
