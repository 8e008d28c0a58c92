[package]
name = "eager-const"
version = "0.1.0"
edition = "2021"
publish = false

[dependencies]
quote = "1"
serde = "1"
syn = { version = "2", features = ["full"] }
toml = "0.8"
