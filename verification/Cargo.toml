[package]
name = "dark_horse"
version = "0.1.0"
edition = "2021"
publish = false

[dependencies]
serde = { version = "1", features = ["derive"] }
serde_json = "1"
directories = "6"
eframe = { version = "0.37", default-features = false, features = ["glow", "default_fonts", "x11"] }
