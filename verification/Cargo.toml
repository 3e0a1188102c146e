[package]
name = "mi"
version = "0.1.0"
edition = "2021"
publish = false

[dependencies]
getopts = "*"
itertools = "*"
stdinout = "*"
flate2 = "*"
fst = "*"
