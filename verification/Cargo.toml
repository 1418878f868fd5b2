[package]
name = "makedocs"
version = "0.1.0"
edition = "2021"
publish = false

[dependencies]
semver = "*"
toml = "*"
clap = "*"
