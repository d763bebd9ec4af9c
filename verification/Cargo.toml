[package]
name = "cucumber"
version = "0.1.0"
edition = "2021"
publish = false

[dependencies]
krakatau2 = "=0.1.0"
colorsys = "=0.7.3"
xml-rs = "=1.0.0"
serde = { version = "=1.0.229", features = ["derive"] }
serde_json = "=1.0.154"
anyhow = "=1.0.104"
egui = { version = "=0.37.0", default-features = false }
zip = { version = "*", default-features = false, features = ["deflate"] }
rand = "*"
