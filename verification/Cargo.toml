[package]
name = "columns"
version = "1.1.12"
edition = "2021"
publish = false

[dependencies]
fastrand = "2"
log = "0.4"
ratatui = "*"
