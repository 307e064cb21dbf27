[package]
name = "threedobs"
version = "0.1.0"
edition = "2021"
publish = false

[dependencies]
anyhow = "1"
glm = "0.2"
hard-xml = "*"
image = { version = "0.24", default-features = false, features = ["png", "jpeg"] }
log = "0.4"
