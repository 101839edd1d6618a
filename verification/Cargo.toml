[package]
name = "sd"
version = "1.0.0"
edition = "2021"
publish = false

[dependencies]
ansi_term = "0.12"
clap = { version = "4", features = ["derive"] }
clap_complete = "4"
clap_mangen = "0.2"
rayon = "1"
regex = "1"
regex-syntax = "0.6"
roff = "0.2"
tempfile = "3"
thiserror = "1"
