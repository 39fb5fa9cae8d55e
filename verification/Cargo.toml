[package]
name = "netsync"
version = "0.1.0"
edition = "2021"
publish = false

[dependencies]
bevy_platform = "=0.16.1"
rand = "=0.9.5"
bincode = { version = "=2.0.1", features = ["serde"] }
serde = { version = "=1.0.229", features = ["derive"] }
bevy = { version = "=0.16.1", default-features = false, features = ["bevy_sprite", "bevy_render", "bevy_core_pipeline", "bevy_window", "bevy_color", "std"] }
bevy_rapier2d = { version = "0.30", default-features = false, features = ["dim2"] }
bevy_renet2 = "=0.9.1"
renet2 = "=0.9.1"
renet2_netcode = "=0.9.1"
idna_adapter = "=1.1.0"
