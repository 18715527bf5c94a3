[package]
name = "notarium"
version = "0.1.0"
edition = "2021"
publish = false

[dependencies]
khi = { version = "=0.16.1", features = ["tex"] }
rand = "=0.9.5"
serde_json = "=1.0.154"
include_dir = "=0.7.4"
zeroarg = "=0.1.0"
