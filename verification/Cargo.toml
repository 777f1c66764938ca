[package]
name = "clawpad"
version = "0.1.0"
edition = "2021"
publish = false

[dependencies]
ropey = "1.6"
syntect = { version = "5", default-features = false, features = ["default-fancy"] }
walkdir = "2"
serde = { version = "1", features = ["derive"] }
serde_json = "1"
env_logger = { version = "0.11", default-features = false }
eframe = { version = "0.29", default-features = false, features = ["default_fonts", "glow", "x11"] }
egui = "0.29"
egui_commonmark = { version = "0.18", default-features = false, features = ["pulldown_cmark"] }
rfd = { version = "0.15", default-features = false, features = ["xdg-portal", "tokio"] }
