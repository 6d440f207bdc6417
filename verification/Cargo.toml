[package]
name = "tty_interface"
version = "0.1.0"
edition = "2021"
publish = false

[dependencies]
crossterm = "=0.29.0"
unicode-segmentation = "=1.13.3"
vt100 = "=0.16.2"
