[package]
name = "zap_engine"
version = "0.1.0"
edition = "2021"
publish = false

[dependencies]
glam = "0.29"
bytemuck = { version = "1", features = ["derive"] }
serde = { version = "1", features = ["derive"] }
serde_json = "1"
rapier2d = "0.22"
nalgebra = "0.33"
lyon = "1"
log = "0.4"
