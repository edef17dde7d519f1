[package]
name = "emerge"
version = "0.1.0"
edition = "2021"
publish = false

[dependencies]
csv = "1"
macroquad = "0.4"
rand = "0.9"
serde = { version = "1", features = ["derive"] }
