[package]
name = "td_3"
version = "0.1.0"
edition = "2021"
publish = false

[dependencies]
bevy = { version = "0.16", default-features = false, features = ["std", "bevy_animation", "bevy_asset", "bevy_color", "bevy_core_pipeline", "bevy_log", "bevy_mesh_picking_backend", "bevy_pbr", "bevy_picking", "bevy_render", "bevy_state", "bevy_text", "bevy_ui", "bevy_ui_picking_backend", "bevy_window"] }
serde = { version = "1", features = ["derive"] }
serde_json = "1"
serde_with = "3"
