[package]
name = "file_manager_core"
version = "0.1.0"
edition = "2021"
publish = false

[dependencies]
clap = { version = "4", features = ["derive"] }
crossbeam-channel = "0.5"
directories = "5"
eframe = { version = "0.21", default-features = false, features = ["default_fonts", "glow"] }
egui_extras = { version = "0.21", features = ["image"] }
image = { version = "0.24", default-features = false, features = ["jpeg", "png"] }
rayon = "1"
serde = { version = "1", features = ["derive"] }
serde_json = "1"
serde_with = "2"
thiserror = "1"
walkdir = "2"
