[package]
name = "photo_desk"
version = "0.1.0"
edition = "2021"
publish = false

[dependencies]
unicode-normalization = "0.1"
sha2 = "0.10"
chrono = { version = "0.4", default-features = false, features = ["clock", "std"] }
walkdir = "2"
serde = { version = "1", features = ["derive"] }
