[package]
name = "klotski"
version = "0.1.0"
edition = "2021"
publish = false

[dependencies]
pathfinding = "4"
serde = { version = "1", features = ["derive"] }
