[package]
name = "scop"
version = "0.1.0"
edition = "2021"
publish = false

[dependencies]
anyhow = "*"
gl = "*"
gl_loader = "*"
glfw = "*"
