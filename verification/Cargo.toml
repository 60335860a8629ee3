[package]
name = "rgrow"
version = "0.1.0"
edition = "2021"
publish = false

[dependencies]
rand = { version = "0.8", features = ["small_rng"] }
serde = { version = "1", features = ["derive"] }
serde_yaml = { version = "0.9" }
clap = { version = "4", features = ["derive"] }
