[package]
name = "imgtool"
version = "0.1.0"
edition = "2021"
publish = false

[dependencies]
libcaesium = "=0.17.4"
imagesize = "=0.15.0"
structopt = "=0.3.26"
