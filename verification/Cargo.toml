[package]
name = "mezon_ui"
version = "0.1.0"
edition = "2021"
publish = false

[dependencies]
indexmap = "2"
unicode-normalization = "0.1"
unicode-segmentation = "1"
chrono = { version = "0.4", default-features = false, features = ["clock", "std"] }
base64 = "0.22"
percent-encoding = "2"
serde = { version = "1", features = ["derive"] }
serde_json = "1"
