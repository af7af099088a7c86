[package]
name = "binarytools"
version = "0.1.0"
edition = "2021"
publish = false

[dependencies]
atty = "=0.2.14"
clap = "=2.34.0"

[dev-dependencies]
nom = "7"
