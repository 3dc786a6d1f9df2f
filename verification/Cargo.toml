[package]
name = "rgx"
version = "0.1.0"
edition = "2021"
publish = false

[dependencies]
regex = "1"
regex-syntax = "0.8"
fancy-regex = "0.13"
pcre2 = "0.2"
serde_json = "1"
ratatui = "0.29"
crossterm = "0.28"
clap = { version = "4", features = ["derive"] }
atty = "0.2"
unicode-width = "0.2"
arboard = { version = "3", default-features = false }
