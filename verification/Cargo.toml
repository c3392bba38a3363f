[package]
name = "tinyrenderer"
version = "0.1.0"
edition = "2021"
publish = false

[dependencies]
egui = "0.15"
egui-winit = { version = "0.15", default-features = false, features = ["links"] }
egui_wgpu_backend = "0.14"
env_logger = "0.9"
glam = "0.20"
log = "0.4"
pixels = "0.8"
png = "0.17"
regex = "1"
winit = "0.25"
winit_input_helper = "0.10"
