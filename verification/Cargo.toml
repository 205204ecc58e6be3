[package]
name = "mapgame"
version = "0.1.0"
edition = "2021"
publish = false

[dependencies]
geojson = "*"
serde = { version = "*", features = ["derive"] }
serde_json = "*"
