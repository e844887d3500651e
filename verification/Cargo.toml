[package]
name = "shopping_list"
version = "0.1.0"
edition = "2021"
publish = false

[dependencies]
cooklang = { version = "=0.19.0", features = ["pantry"] }
serde = { version = "=1.0.229", features = ["derive"] }
serde_json = "=1.0.151"
camino = "=1.2.6"
anyhow = "=1.0.104"
