[package]
name = "racegen"
version = "0.1.0"
edition = "2021"
publish = false

[dependencies]
rand = "=0.8.8"
macroquad = "=0.3.26"
egui-macroquad = "0.15"
arboard = { version = "=3.6.1", default-features = false, features = ["image-data"] }
