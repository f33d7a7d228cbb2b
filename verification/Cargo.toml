[package]
name = "tickets"
version = "0.1.0"
edition = "2021"
publish = false

[dependencies]
dirs = "*"
exitcode = "*"
structopt = "0.3"
