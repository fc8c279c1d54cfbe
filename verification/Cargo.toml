[package]
name = "server_sync"
version = "0.1.0"
edition = "2021"
publish = false

[dependencies]
handlebars = "*"
simdutf8 = "*"
clap = { version = "*", features = ["env"] }
walkdir = "*"
file-owner = "*"
similar = "*"
