[package]
name = "tickets_ui"
version = "0.1.0"
edition = "2021"
publish = false

[dependencies]
packr-guest = "*"
serde = { version = "1", default-features = false, features = ["derive", "alloc"] }
serde_json = { version = "1", default-features = false, features = ["alloc"] }
