[package]
name = "ios_emu"
version = "0.1.0"
edition = "2021"
publish = false

[dependencies]
log = "0.4"
zip = { version = "0.6", default-features = false, features = ["deflate"] }
