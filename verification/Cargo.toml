[package]
name = "model_loader"
version = "0.1.0"
edition = "2021"
publish = false

[dependencies]
gl = "0.14"
glfw = "0.31"
glm = "0.2"
image = "0.22"
