[package]
name = "userbar"
version = "0.1.0"
edition = "2021"
publish = false

[dependencies]
anyhow = "*"
pico-args = "*"
png = "*"
