[package]
name = "addons"
version = "0.1.0"
edition = "2021"
publish = false

[dependencies]
semver-parser = "*"
structopt = "0.3"
