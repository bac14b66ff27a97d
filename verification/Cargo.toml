[package]
name = "minidb"
version = "0.1.0"
edition = "2021"
publish = false

[dependencies]
eframe = { version = "*", default-features = false, features = ["glow", "x11", "default_fonts"] }
reqwest = { version = "=0.13.5", default-features = false, features = ["json"] }
serde_json = "=1.0.151"
sha2 = "=0.11.0"
