[package]
name = "pixel_editor"
version = "0.1.0"
edition = "2021"
publish = false

[dependencies]
iced = { version = "=0.13.1", default-features = false, features = ["canvas"] }
image = { version = "0.25", default-features = false, features = ["png", "gif", "bmp", "jpeg"] }
