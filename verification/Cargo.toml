[package]
name = "daily_planner"
version = "0.1.0"
edition = "2021"
publish = false

[dependencies]
chrono = "=0.4.45"
eframe = { version = "=0.22.0", default-features = false, features = ["glow", "default_fonts"] }

[dev-dependencies]
serde_json = "*"
