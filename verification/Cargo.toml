[package]
name = "nephos"
version = "0.1.0"
edition = "2021"
publish = false

[dependencies]
bytemuck = { version = "*", features = ["derive"] }
clap = { version = "=4.6.7", features = ["derive"] }
color-eyre = { version = "*", default-features = false }
env_logger = "*"
futures = "*"
gif = "=0.14.2"
glam = { version = "=0.34.1", features = ["bytemuck"] }
image = { version = "=0.25.10", default-features = false, features = ["png"] }
itertools = "*"
log = "*"
rand = "=0.10.3"
thiserror = "*"
tokio = { version = "*", features = ["rt-multi-thread", "time"] }
wgpu = "=24.0.5"
wgpu-async = "=24.0.3"
winit = { version = "=0.30.13", default-features = false, features = ["rwh_06", "x11"] }
