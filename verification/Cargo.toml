[package]
name = "scene_render"
version = "0.1.0"
edition = "2021"
publish = false

[dependencies]
cairo-rs = { version = "0.4", default-features = false }
log = "0.4"
