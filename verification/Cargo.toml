[package]
name = "parse_changelog"
version = "0.1.0"
edition = "2021"
publish = false

[dependencies]
indexmap = "*"
lexopt = "*"
regex = "*"
serde = "*"
serde_json = "*"
