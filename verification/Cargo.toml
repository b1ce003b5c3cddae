[package]
name = "toid"
version = "0.1.0"
edition = "2021"
publish = false

[dependencies]
nom = { version = "5", default-features = false, features = ["std"] }
serde = { version = "1", features = ["derive"] }
log = "0.4"

[dev-dependencies]
im = "15"
