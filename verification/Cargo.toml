[package]
name = "zava"
version = "0.1.0"
edition = "2021"
publish = false

[dependencies]
crossterm = "0.28"
ratatui = "0.29"
rustfft = "6"
signal-hook = "0.3"
libc = "0.2"
cpal = "*"
