[package]
name = "sva_ui"
version = "0.1.0"
edition = "2021"
publish = false

[dependencies]
chrono = { version = "=0.4.45", default-features = false, features = ["now"] }
serde = { version = "1", features = ["derive", "rc"] }
serde_json = "1"
egui = { version = "=0.27.2", default-features = false, features = ["serde"] }
eframe = { version = "0.27", default-features = false, features = ["glow", "persistence"] }
egui_code_editor = "=0.2.7"
egui_file = "=0.17.0"
egui-modal = "=0.3.6"
egui-notify = "=0.14.0"
peak_alloc = "=0.2.1"
rust-i18n = "=3.1.5"
backtrace = "=0.3.76"
