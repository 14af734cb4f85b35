[package]
name = "media_browser"
version = "0.1.0"
edition = "2021"
publish = false

[dependencies]
egui = "0.27"
egui_extras = { version = "0.27", default-features = false }
fs_extra = "1"
image = { version = "0.25", default-features = false, features = ["png", "jpeg", "gif", "bmp"] }
rayon = "1"
crossbeam-channel = "0.5"
