[package]
name = "toptui"
version = "0.1.0"
edition = "2021"
publish = false

[dependencies]
ratatui = "*"
crossterm = "0.29"
libc = "0.2"
