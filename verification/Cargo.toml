[package]
name = "spessartine"
version = "0.1.0"
edition = "2021"
publish = false

[dependencies]
dirs = "*"
zip = { version = "*", default-features = false, features = ["deflate"] }
rusqlite = { version = "*", features = ["bundled"] }
toml = "*"
serde = { version = "1", features = ["derive"] }
image = { version = "0.25", default-features = false, features = ["jpeg", "png", "gif", "webp"] }
kamadak-exif = "*"
rodio = "0.20"
earcutr = "*"
