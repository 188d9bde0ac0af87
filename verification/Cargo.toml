[package]
name = "templates_service"
version = "0.1.0"
edition = "2021"
publish = false

[dependencies]
serde_json = "1"
sha2 = "0.10"
hex = "0.4"
dotenv = "0.15"
