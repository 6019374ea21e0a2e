[package]
name = "stubgen"
version = "0.1.0"
edition = "2021"
publish = false

[dependencies]
tera = { version = "1", default-features = false }
tera-text-filters = "*"
serde_json = "1"
serde = { version = "1", features = ["derive"] }
toml = "*"
