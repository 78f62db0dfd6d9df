[package]
name = "rdom_charts"
version = "0.1.0"
edition = "2021"
publish = false

[dependencies]
rdom-tui = "0.3"
