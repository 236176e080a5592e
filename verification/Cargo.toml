[package]
name = "tiff_locator"
version = "0.1.0"
edition = "2021"
publish = false

[dependencies]
fuzzy-matcher = "0.3"
wgpu = "0.20"
pollster = "0.3"
futures = "0.3"
bytemuck = "1"
rusqlite = { version = "0.31", features = ["bundled"] }
csv = "1"
walkdir = "2"
chrono = "0.4"
