[package]
name = "chess_scene"
version = "0.1.0"
edition = "2021"
publish = false

[dependencies]
bevy = { version = "=0.6.1", default-features = false, features = ["render", "bevy_winit", "bevy_gltf", "png", "x11"] }
# bevy's derive macros use syn's item types without asking for syn's `full`
# feature; this macro crate asks for it.
darling_macro = "=0.13.4"
