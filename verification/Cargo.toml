[package]
name = "edrefis"
version = "0.1.0"
edition = "2021"
publish = false

[dependencies]
hecs = "=0.11.2"
nanoserde = "=0.2.1"
sdl3 = { version = "=0.22.0", features = ["mixer", "raw-window-handle"] }
wgpu = "=30.0.1"
glam = "=0.34.2"
glyphon = "=0.12.0"
pollster = "=1.0.1"
minipng = "=1.0.0"
bytemuck = { version = "=1.25.2", features = ["derive"] }
tokio = { version = "=1.54.1", features = ["full"] }
tokio-tungstenite = "=0.30.0"
futures-util = { version = "=0.3.34", features = ["sink"] }
