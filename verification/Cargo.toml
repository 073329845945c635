[package]
name = "capdispatch"
version = "0.1.0"
edition = "2021"
publish = false

[dependencies]
actix-web = "*"
actix-rt = "*"
async-trait = "*"
serde = { version = "*", features = ["derive"] }
serde_json = "*"
