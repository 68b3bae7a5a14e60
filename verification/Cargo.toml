[package]
name = "fo76_fo4"
version = "0.1.0"
edition = "2021"
publish = false

[dependencies]
smallvec = "1"
rustc-hash = "2"
serde_json = "1"
