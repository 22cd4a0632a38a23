[package]
name = "racoon"
version = "0.1.0"
edition = "2021"
publish = false

[dependencies]
slotmap = "1.0"
itertools = "0.10"
structopt = "0.3"
