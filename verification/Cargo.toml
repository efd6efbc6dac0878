[package]
name = "teloxide"
version = "0.1.0"
edition = "2021"
publish = false

[dependencies]
serde = { version = "*", features = ["derive"] }
serde_json = "*"
serde_with_macros = "*"
async-trait = "*"
futures = "*"
reqwest = { version = "*", default-features = false }
