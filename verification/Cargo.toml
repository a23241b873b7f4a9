[package]
name = "face_registry"
version = "0.1.0"
edition = "2021"
publish = false

[dependencies]
const_soft_float = "=0.1.4"
serde = "=1.0.229"
serde_json = "=1.0.151"
