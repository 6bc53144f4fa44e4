[package]
name = "fluent_symbols"
version = "0.1.0"
edition = "2021"
publish = false

[dependencies]
fluent-bundle = "*"
fluent-syntax = "*"
unic-langid = "*"
intl-memoizer = "*"
chrono = "*"
miette = "*"
