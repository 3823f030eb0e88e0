[package]
name = "navgrid"
version = "0.1.0"
edition = "2021"
publish = false

[dependencies]
polyanya = { version = "=0.1.7", features = ["no-default-baking"] }
indexmap = "=1.9.3"
fastrand = "=1.9.0"
glam = "=0.21.3"
bevy = { version = "=0.8.1", default-features = false, features = ["bevy_asset", "bevy_winit", "render", "png", "x11"] }
bevy_ecs_tilemap = "=0.8.0"
bevy_prototype_debug_lines = "=0.8.1"
