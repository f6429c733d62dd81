[package]
name = "mdp_manager"
version = "0.1.0"
edition = "2021"
publish = false

[dependencies]
aes-gcm = "0.10"
argon2 = "0.5"
base64 = "0.22"
rand = "0.8"
zeroize = "1"
uuid = { version = "1", features = ["v4", "serde"] }
chrono = { version = "0.4", features = ["serde"] }
serde = { version = "1", features = ["derive"] }
serde_json = "1"
csv = "1"
arboard = { version = "3", default-features = false }
egui = { version = "0.29", default-features = false }
eframe = { version = "0.29", default-features = false, features = ["glow", "x11", "default_fonts"] }
