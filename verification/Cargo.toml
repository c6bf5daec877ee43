[package]
name = "legacy_doc"
version = "0.1.0"
edition = "2021"
publish = false

[dependencies]
office_oxide = "*"
serde = { version = "*", features = ["derive"] }
thiserror = "*"
zip = "*"
