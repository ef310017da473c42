[package]
name = "quest_scrcpy"
version = "0.1.0"
edition = "2021"
publish = false

[dependencies]
anyhow = "1"
clap = { version = "4", features = ["derive"] }
cpal = "*"
crossbeam-channel = "0.5"
eframe = { version = "*", default-features = false, features = ["default_fonts", "wgpu", "x11"] }
egui = { version = "*", default-features = false, features = ["default_fonts"] }
image = { version = "0.25", default-features = false, features = ["png"] }
windows = { version = "*", features = ["Win32_Media_MediaFoundation", "Win32_System_Com", "Win32_System_Com_StructuredStorage", "Win32_System_Variant"] }
