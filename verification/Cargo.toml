[package]
name = "mofi"
version = "0.1.0"
edition = "2021"
publish = false

[dependencies]
fuzzy-matcher = "0.3"
image = { version = "0.24", default-features = false, features = ["png", "tiff"] }
serde = { version = "1", features = ["derive"] }
serde_json = "1"
toml = "0.8"
dirs = "5"
egui = "0.27"
egui_glow = { version = "0.27", default-features = false }
glow = "0.13"
glutin = { version = "0.31", default-features = false, features = ["egl", "wayland"] }
raw-window-handle = "0.5"
smithay-client-toolkit = { version = "0.18", default-features = false, features = ["xkbcommon"] }
wayland-protocols = { version = "0.31", features = ["client", "staging"] }
wayland-client = "0.31"
wayland-backend = { version = "0.3", features = ["client_system"] }
env_logger = "0.11"
fontdue = "0.9"
ksni = "0.2"
libc = "0.2"
signal-hook = "0.3"
shellexpand = "3"
eframe = { version = "0.27", default-features = false, features = ["glow"] }
objc2 = "0.6"
objc2-foundation = "0.3"
objc2-app-kit = "0.3"
