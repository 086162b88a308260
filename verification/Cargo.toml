[package]
name = "line2json"
version = "0.1.0"
edition = "2021"
publish = false

[dependencies]
itertools = "0.10"
regex = "1"
serde_json = "1"
structopt = "0.3"
