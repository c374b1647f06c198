[package]
name = "neophyte"
version = "0.1.0"
edition = "2021"
publish = false

[dependencies]
rmpv = "*"
termcolor = "*"
swash = "*"
log = "*"
