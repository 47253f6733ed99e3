[package]
name = "dirsync"
version = "0.1.0"
edition = "2021"
publish = false

[dependencies]
sha2 = "*"
log = "*"
simple_logger = "*"
simple-error = "*"
structopt = "*"
