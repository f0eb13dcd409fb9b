[package]
name = "clap_config"
version = "0.1.0"
edition = "2021"
publish = false

[dependencies]
clap = "2"
config = "0.11"
