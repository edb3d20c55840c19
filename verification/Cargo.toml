[package]
name = "orion-dudect"
version = "0.1.0"
edition = "2021"
publish = false

[dependencies]
dudect-bencher = "0.6"
rand = "0.8"
orion = "0.17"
ct-codecs = "1"

[dev-dependencies]
regex = "1"
