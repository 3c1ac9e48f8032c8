[package]
name = "vshell"
version = "0.1.0"
edition = "2021"
publish = false

[dependencies]
arboard = { version = "3", default-features = false }
crossterm = "0.27"
dirs = "5"
ratatui = "0.26"
shlex = "1"
