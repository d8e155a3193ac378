[package]
name = "usd_protocol"
version = "0.1.0"
edition = "2021"
publish = false

[dependencies]
rand = "0.8"
dynamic-weighted-index = "*"
csv = "1"
incr_stats = "*"
