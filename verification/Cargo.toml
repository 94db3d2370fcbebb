[package]
name = "svg_gui"
version = "0.1.0"
edition = "2021"
publish = false

[dependencies]
roxmltree = "*"
fastrand = "*"
glam = "*"
serde = { version = "*", features = ["derive"] }
serde_json = "*"
