[package]
name = "shader_canvas"
version = "0.1.0"
edition = "2021"
publish = false

[dependencies]
wgpu = { version = "=30.0.1", default-features = false, features = ["wgsl", "std"] }
log = "=0.4.35"
bytemuck = { version = "=1.25.2", features = ["derive"] }
cgmath = "=0.18.0"
notify-debouncer-mini = "=0.7.0"
winit = "=0.30.13"
