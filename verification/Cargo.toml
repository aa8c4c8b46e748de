[package]
name = "datatect"
version = "0.1.0"
edition = "2021"
publish = false

[dependencies]
serde_json = "*"
jsonschema = { version = "*", default-features = false }
reqwest = { version = "*", default-features = false, features = ["blocking"] }
clap = { version = "*", features = ["derive"] }
dotenv = "*"
serde_yaml = "*"
rayon = "*"
