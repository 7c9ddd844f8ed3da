[package]
name = "ripple"
version = "0.1.0"
edition = "2021"
publish = false

[dependencies]
rayon = "1"
glam = "*"
bytemuck = { version = "1", features = ["derive"] }
png = "*"
pollster = "*"
wgpu = "*"
winit = "0.30"
egui = { version = "*", default-features = false, features = ["default_fonts"] }
egui-wgpu = { version = "*", default-features = false }
egui-winit = { version = "*", default-features = false }
