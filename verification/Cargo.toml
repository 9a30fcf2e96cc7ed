[package]
name = "columnar"
version = "0.1.0"
edition = "2021"
publish = false

[dependencies]
arrow2 = { version = "*", default-features = false }
chrono = { version = "*", default-features = false }
