[package]
name = "minesweep"
version = "0.1.0"
edition = "2021"
publish = false

[dependencies]
chrono = "0.4"
eframe = "0.19"
egui_extras = "0.19"
rand = "0.8"
timer = "0.2"
