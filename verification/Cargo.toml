[package]
name = "calyx"
version = "0.1.0"
edition = "2021"
publish = false

[dependencies]
sha1 = "0.10"
uuid = "1"
relative-path = "1"
serde_json = "1"
log = "0.4"
dirs = "*"
common-path = "1"
