[package]
name = "nameforge"
version = "0.1.0"
edition = "2021"
publish = false

[dependencies]
base64 = "*"
chrono = "*"
clap = { version = "*", features = ["derive"] }
colored = "*"
image = { version = "*", default-features = false, features = ["bmp", "gif", "jpeg", "png", "tiff", "webp"] }
kamadak-exif = "*"
reqwest = { version = "*", features = ["blocking", "json"] }
serde = { version = "*", features = ["derive"] }
serde_json = "*"
