[package]
name = "graphplot"
version = "0.1.0"
edition = "2021"
publish = false

[dependencies]
eframe = { version = "0.29", default-features = false, features = ["default_fonts", "glow", "x11"] }
egui = "0.29"
mlua = { version = "0.10", features = ["lua54", "vendored"] }
rand = "0.8"
rand_chacha = "0.3"
