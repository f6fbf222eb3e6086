[package]
name = "release_parser"
version = "0.1.0"
edition = "2021"
publish = false

[dependencies]
semver = "0.9"
serde = "1"

[dev-dependencies]
regex = "1"
