[package]
name = "dawn_project"
version = "0.1.0"
edition = "2021"
publish = false

[dependencies]
serde = { version = "1", features = ["derive"] }
serde_yaml = "0.9"
serde_path_to_error = "0.1"
indexmap = { version = "2", features = ["serde"] }
yaml-rust2 = "*"
cap-std = "*"
