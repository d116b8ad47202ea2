[package]
name = "relaytool"
version = "0.1.0"
edition = "2021"
publish = false

[dependencies]
hex = "*"
ipnetwork = "*"

[dev-dependencies]
levenshtein = "*"
