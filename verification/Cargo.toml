[package]
name = "rworldradio"
version = "0.1.0"
edition = "2021"
publish = false

[dependencies]
cpal = "0.16"
eframe = { version = "0.33", default-features = false, features = ["default_fonts", "glow", "x11"] }
egui = "0.33"
serde_json = "1"
symphonia = { version = "0.5", features = ["aac", "mp3", "mp2", "mp1", "isomp4"] }
ureq = "2"
