[package]
name = "cdt"
version = "0.1.0"
edition = "2021"
publish = false

[dependencies]
easy-gltf = "*"
glam = "*"
prettytable-rs = "*"
