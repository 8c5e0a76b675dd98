[package]
name = "besked"
version = "0.1.0"
edition = "2021"
publish = false

[dependencies]
chrono = "*"
either = "*"
lazy-regex = "*"
local-ip-address = "*"
parking_lot = "*"
rayon = "*"
