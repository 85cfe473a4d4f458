[package]
name = "way_edges"
version = "0.1.0"
edition = "2021"
publish = false

[dependencies]
hyprland = "=0.3.13"
async-channel = "=2.5.0"
log = "=0.4.35"
env_logger = "=0.11.11"
notify = "=6.1.1"
blight = "=0.8.0"
libpulse-binding = "=2.30.1"
tokio = { version = "=1.54.1", features = ["rt", "macros", "time"] }
notify-rust = "=4.18.2"
system-tray = "=0.8.9"
zbus = "=5.19.0"
