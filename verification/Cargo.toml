[package]
name = "augur_gui"
version = "0.1.0"
edition = "2021"
publish = false

[dependencies]
bytemuck = { version = "1", features = ["derive"] }
crossbeam-channel = "0.5"
egui = "0.27"
egui_extras = { version = "0.27", default-features = false }
egui_plot = "0.27"
glam = "0.27"
image = { version = "0.24", default-features = false, features = ["png", "tiff"] }
serde = { version = "1", features = ["derive"] }
serde_json = "1"
tiff = "0.9"
time = { version = "0.3", features = ["formatting"] }
