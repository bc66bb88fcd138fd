[package]
name = "roblox_fast_flag_editor"
version = "2.0.0"
edition = "2021"
publish = false

[dependencies]
serde_json = "1"
eframe = { version = "0.33", default-features = false, features = ["default_fonts", "glow", "x11"] }
image = { version = "0.25", default-features = false, features = ["ico"] }
rfd = "0.15"
