[package]
name = "crack_simulator"
version = "0.1.0"
edition = "2021"
publish = false

[dependencies]
rand = "0.8"
glium = "0.32"
rosc = "0.10"
serde = { version = "1", features = ["derive"] }
serde_json = "1"
colored = "2"
lazy_static = "1.4"
