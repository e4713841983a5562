[package]
name = "tentacle"
version = "0.1.0"
edition = "2021"
publish = false

[dependencies]
bytes = "0.4"
futures = "0.1"
log = "0.4"
rand = "0.6"
ring = "*"
sha2 = "0.8"
