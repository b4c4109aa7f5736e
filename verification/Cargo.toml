[package]
name = "moremass"
version = "0.1.0"
edition = "2021"
publish = false

[dependencies]
base64 = "0.13"
chrono = { version = "0.4", default-features = false, features = ["std"] }
rustc_apfloat = "0.2"
iced = { version = "0.4", features = ["canvas", "pure", "svg"] }
