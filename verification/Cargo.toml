[package]
name = "bevy_fabulous"
version = "0.1.0"
edition = "2021"
publish = false

[dependencies]
bevy = { version = "0.15", default-features = false, features = ["bevy_asset", "bevy_scene", "bevy_gltf", "bevy_pbr"] }
