[package]
name = "ifmon"
version = "0.1.0"
edition = "2021"
publish = false

[dependencies]
unicode-width = "0.2"
netdev = "*"
ratatui = "0.29"
crossterm = "0.28"
color-eyre = "0.6"
