[package]
name = "transformer"
version = "0.1.0"
edition = "2021"
publish = false

[dependencies]
blake3 = "1"
rand = "0.8"
zip = { version = "2", default-features = false, features = ["deflate"] }
ndarray = "0.16"
ndarray-rand = "0.15"
eframe = { version = "0.29", default-features = false, features = ["default_fonts", "glow", "x11"] }
egui_plot = "0.29"
rfd = { version = "0.15", default-features = false, features = ["xdg-portal", "async-std"] }
