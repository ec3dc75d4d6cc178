[package]
name = "die-yield"
version = "0.1.0"
edition = "2021"
publish = false

[dependencies]
base64 = "=0.22.1"
serde = { version = "=1.0.229", features = ["derive"] }
egui = "=0.37.0"
eframe = { version = "=0.37.0", default-features = false, features = ["default_fonts", "glow", "accesskit", "x11", "persistence"] }
epaint_default_fonts = "=0.37.0"
resvg = { version = "=0.49.0", default-features = false, features = ["text"] }
svg2pdf = { version = "=0.13.0", default-features = false, features = ["text"] }
open = "=5.4.5"
env_logger = { version = "=0.11.11", default-features = false }
log = "=0.4.35"
rfd = { version = "=0.17.2", default-features = false, features = ["xdg-portal"] }
# eframe's Wayland support reaches libwayland through wayland-sys; with
# "dlopen" the client library is loaded when the program starts instead of
# being linked at build time, so the program builds where the Wayland
# development files are not installed.
wayland-sys = { version = "=0.31.11", features = ["dlopen"] }
