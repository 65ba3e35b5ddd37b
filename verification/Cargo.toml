[package]
name = "shimeji_gui"
version = "0.1.0"
edition = "2021"
publish = false

[dependencies]
anyhow = "1"
glib = "0.19"
gtk4 = "0.8"
