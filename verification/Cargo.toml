[package]
name = "tane_mahuta"
version = "0.1.0"
edition = "2021"
publish = false

[dependencies]
bevy = { version = "0.8", default-features = false, features = ["bevy_asset", "bevy_winit", "render", "png", "x11"] }
bevy_asset_loader = "0.12"
bevy_ecs_ldtk = "0.4"
bevy_kira_audio = "0.12"
heron = { version = "4", features = ["2d"] }
iyes_loopless = "0.7"
leafwing-input-manager = "0.5"
rand = "0.8"
