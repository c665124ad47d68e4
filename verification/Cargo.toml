[package]
name = "monitorium"
version = "0.1.0"
edition = "2021"
publish = false

[dependencies]
serde = { version = "1", features = ["derive"] }
serde_json = "1"
directories = "6.0.0"
crossbeam-channel = "0.5.17"
log = "0.4.35"
simplelog = "0.12.2"
thiserror = "2.0.21"
auto-launch = "0.6.0"
single-instance = "0.3.3"
eframe = { version = "0.37.0", default-features = false, features = ["glow", "x11", "default_fonts"] }
egui-phosphor = "0.14.0"
global-hotkey = "0.9.0"
image = { version = "0.25.10", default-features = false, features = ["png"] }
raw-window-handle = "0.6.2"
libc = "0.2.191"
