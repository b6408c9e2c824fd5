[package]
name = "flight_radar"
version = "0.1.0"
edition = "2021"
publish = false

[dependencies]
image = "0.22"
piston_window = "0.105"
reqwest = "0.9"
serde = { version = "1", features = ["derive"] }
serde_json = "1"
serde_tuple = "0.4"
shader_version = "0.6"
