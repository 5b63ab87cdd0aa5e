[package]
name = "homotopy_store"
version = "0.1.0"
edition = "2021"
publish = false

[dependencies]
highway = "*"
serde = { version = "*", features = ["derive"] }
serde_json = "*"
rmp-serde = "*"
