[package]
name = "transjlc"
version = "0.1.0"
edition = "2021"
publish = false

[dependencies]
regex = "*"
md-5 = "*"
rand = "*"
chrono = "*"
zip = "*"
clap = "*"
