[package]
name = "xlsx2csv"
version = "0.1.0"
edition = "2021"
publish = false

[dependencies]
calamine = "*"
clap = "*"
sanitize-filename = "*"
