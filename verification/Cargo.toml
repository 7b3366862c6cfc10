[package]
name = "bevy_fighting_lib"
version = "0.1.0"
edition = "2021"
publish = false

[dependencies]
hashbrown = "=0.12.3"
serde = { version = "=1.0.229", features = ["derive"] }
serde_json = "=1.0.154"
serde-pickle = "=1.2.0"
parry3d = "=0.17.6"
bevy = { version = "=0.10.1", default-features = false, features = ["bevy_asset", "bevy_scene", "bevy_gltf", "bevy_pbr", "bevy_render", "bevy_core_pipeline", "bevy_ui", "bevy_text", "animation"] }

[dev-dependencies]
packed_struct = "0.10"
