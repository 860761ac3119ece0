[package]
name = "pulsewm"
version = "0.1.0"
edition = "2021"
publish = false

[dependencies]
smithay = { version = "*", default-features = false, features = ["backend_winit", "desktop", "renderer_gl", "wayland_frontend"] }
