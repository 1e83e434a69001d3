[package]
name = "qdl_gui"
version = "0.1.0"
edition = "2021"
publish = false

[dependencies]
anyhow = "1"
chrono = "0.4"
dirs = "5.0"
eframe = { version = "0.33", default-features = false, features = ["default_fonts", "glow", "x11"] }
env_logger = "0.11"
log = "0.4"
rfd = { version = "0.15", default-features = false, features = ["xdg-portal", "tokio"] }
rusb = { version = "0.9", features = ["vendored"] }
serde = { version = "1", features = ["derive"] }
serde_json = "1"
