[package]
name = "burn_dragon_vision"
version = "0.1.0"
edition = "2021"
publish = false

[dependencies]
anyhow = "1"
burn-ndarray = { version = "0.20", default-features = false, features = ["std"] }
burn-tensor = { version = "0.20", default-features = false, features = ["std"] }
flate2 = "1"
half = "2"
image = { version = "0.25", default-features = false, features = ["jpeg", "png"] }
rand = "0.8"
serde = { version = "1", features = ["derive"] }
serde_json = "1"
tar = "0.4"
ureq = "2"
