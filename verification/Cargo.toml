[package]
name = "rlibxml"
version = "0.1.0"
edition = "2021"
publish = false

[dependencies]
libxml = "=0.3.3"
