[package]
name = "dipse"
version = "0.1.0"
edition = "2021"
publish = false

[dependencies]
dirs = "4"
structopt = "0.3"
toml = "0.5"
