[package]
name = "tasky"
version = "0.1.0"
edition = "2021"
publish = false

[dependencies]
chrono = "=0.4.45"
serde = { version = "1", features = ["derive"] }
toml = "0.9"
thiserror = "2"
rusqlite = { version = "*", features = ["bundled"] }
rusqlite_migration = "2"
git2 = { version = "0.21", default-features = false }
eframe = { version = "0.37", default-features = false, features = ["glow", "default_fonts", "x11"] }
global-hotkey = "0.9"
winreg = "0.56"
