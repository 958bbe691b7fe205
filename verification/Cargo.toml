[package]
name = "vcc"
version = "0.1.0"
edition = "2021"
publish = false

[dependencies]
memchr = "2"
strumbra = "*"
subslice_index = "*"
sqlite = "*"
egui_winit_vulkano = "*"
vulkano = "*"
vulkano-util = "*"
winit = "*"
