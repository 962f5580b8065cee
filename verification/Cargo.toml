[package]
name = "grun"
version = "0.1.0"
edition = "2021"
publish = false

[dependencies]
clap = "3"
colored = "2"
isahc = "1"
url = "2"
