[package]
name = "norays"
version = "0.1.0"
edition = "2021"
publish = false

[dependencies]
fibers = "0.1"
futures = "0.1"
minifb = "*"
nbchan = "0.1"
