[package]
name = "egui_datepicker"
version = "0.1.0"
edition = "2021"
publish = false

[dependencies]
chrono = { version = "=0.4.45", default-features = false, features = ["std", "clock"] }
eframe = { version = "=0.36.2", default-features = false, features = ["x11"] }
