[package]
name = "meme_guard"
version = "0.1.0"
edition = "2021"
publish = false

[dependencies]
image = "=0.25.10"
serde = { version = "=1.0.229", features = ["derive"] }
kovi = "=0.11.12"
reqwest = "=0.12.28"
ort = { version = "=2.0.0-rc.13", default-features = false, features = ["std", "ndarray", "load-dynamic", "api-27"] }
ndarray = "=0.17.2"
raqote = { version = "=0.8.5", default-features = false }
