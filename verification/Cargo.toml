[package]
name = "traps"
version = "0.1.2"
edition = "2021"
publish = false

[dependencies]
clap = "3"
dirs = "5"
lazy_static = "1.4"
libc = "0.2"
xcb = "0.9"
