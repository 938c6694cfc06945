[package]
name = "yara_diagnostics"
version = "0.1.0"
edition = "2021"
publish = false

[dependencies]
anyhow = "1"
clap = "4"
itertools = "0.14"
regex-syntax = "0.8"
serde_json = "1"
yansi = "1"
