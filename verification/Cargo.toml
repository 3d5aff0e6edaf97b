[package]
name = "metre"
version = "0.1.0"
edition = "2021"
publish = false

[dependencies]
serde_json = "*"
serde_yaml = "*"
toml = "*"
json_comments = "*"
Inflector = "*"
reqwest = { version = "*", default-features = false, features = ["blocking"] }
