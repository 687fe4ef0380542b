[package]
name = "ssbh_material"
version = "0.1.0"
edition = "2021"
publish = false

[dependencies]
egui_dnd = "=0.17.0"
serde_json = "=1.0.151"
ssbh_data = { version = "=0.19.0", features = ["serde", "strum"] }
