[package]
name = "pixels"
version = "0.1.0"
edition = "2021"
publish = false

[dependencies]
arrayvec = "0.7"
line_drawing = "1"
pcx = "0.2"
pollster = "0.3"
rand_core = { version = "0.6", features = ["getrandom"] }
raw-window-handle = "0.6"
thiserror = "1"
ultraviolet = "0.9"
wgpu = "0.19"
