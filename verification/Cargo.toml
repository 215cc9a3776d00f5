[package]
name = "w3drs"
version = "0.1.0"
edition = "2021"
publish = false

[dependencies]
serde = { version = "=1.0.229", features = ["derive"] }
serde_json = "=1.0.154"
glam = "=0.30.10"
thiserror = "=2.0.21"
log = "=0.4.35"
rayon = "=1.12.0"
ureq = { version = "=2.12.1", default-features = false }
gltf = { version = "=1.4.1", features = ["extensions", "KHR_materials_ior", "KHR_materials_emissive_strength", "KHR_materials_transmission", "KHR_materials_specular", "KHR_materials_volume", "KHR_texture_transform"] }
image = { version = "=0.25.10", default-features = false, features = ["hdr"] }
