[package]
name = "bevy_voxel_engine"
version = "0.1.0"
edition = "2021"
publish = false

[dependencies]
bytemuck = "=1.25.2"
bevy = { version = "0.13", default-features = false }
