[package]
name = "droidsaw_dex"
version = "0.1.0"
edition = "2021"
publish = false

[dependencies]
adler2 = "2"
sha1 = "0.10"
