[package]
name = "d20_visualizer"
version = "0.1.0"
edition = "2021"
publish = false

[dependencies]
env_logger = "0.10"
error-iter = "0.4"
log = "0.4"
pixels = "0.13"
rand = "0.8"
winit = "0.28"
