[package]
name = "replicant"
version = "0.1.0"
edition = "2021"
publish = false

[dependencies]
ansi_term = "0.12"
base64 = "0.13"
directories-next = "2"
serde = { version = "1", features = ["derive"] }
serde_json = "1"
sodiumoxide = "0.2"
