[package]
name = "keyrelay"
version = "0.1.0"
edition = "2021"
publish = false

[dependencies]
ctrlc = "3"
evdev = "0.10"
log = "0.4"
simplelog = "0.12"
