[package]
name = "fstlc"
version = "0.1.0"
edition = "2021"
publish = false

[dependencies]
itertools = "=0.15.0"
stderrlog = "=0.6.0"
structopt = "=0.3.26"
