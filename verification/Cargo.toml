[package]
name = "shellui"
version = "0.1.0"
edition = "2021"
publish = false

[dependencies]
winit = "*"
softbuffer = "*"
raw-window-handle = "*"
cosmic-text = "*"
