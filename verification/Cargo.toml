[package]
name = "hex_diff"
version = "0.1.0"
edition = "2021"
publish = false

[dependencies]
rand = "0.8"
egui = "0.27"
egui_extras = "0.27"
