[package]
name = "selparse"
version = "0.1.0"
edition = "2021"
publish = false

[dependencies]
serde_json = "1"
serde-value = "0.7"
serde_yaml = "0.8"
toml = "0.5"
structopt = "0.3"
clap = "2"
