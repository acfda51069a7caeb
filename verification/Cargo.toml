[package]
name = "stybulate"
version = "1.1.2"
edition = "2021"

[dependencies]
unicode-width = "0.1"
strip-ansi-escapes = "0.1"
ansi_term = "0.12"
anyhow = "1"
structopt = "0.3"
