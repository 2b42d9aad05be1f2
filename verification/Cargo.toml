[package]
name = "phusis"
version = "0.1.0"
edition = "2021"
publish = false

[dependencies]
generational-arena = "0.2"
bevy = { version = "0.10", default-features = false }
bevy_prototype_lyon = "0.8"
