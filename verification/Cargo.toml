[package]
name = "gerber_viewer"
version = "0.1.0"
edition = "2021"
publish = false

[dependencies]
egui = "*"
nalgebra = "*"
env_logger = "*"
