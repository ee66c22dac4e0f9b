[package]
name = "glb_decimate"
version = "0.1.0"
edition = "2021"
publish = false

[dependencies]
nalgebra = "0.33"
serde_json = "1"
