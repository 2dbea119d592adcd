[package]
name = "science_vault"
version = "0.1.0"
edition = "2021"
publish = false

[dependencies]
sp-arithmetic = { version = "=29.0.0", default-features = false, features = ["std"] }
serde = { version = "=1.0.229", features = ["derive"] }

[dev-dependencies]
sp-weights = "=37.0.0"
