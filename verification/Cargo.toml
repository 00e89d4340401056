[package]
name = "mindbase"
version = "0.1.0"
edition = "2021"
publish = false

[dependencies]
base64 = "0.13"
inverted-index-util = "*"
pest = "2"
rusty_ulid = "0.10"
serde = { version = "1", features = ["derive"] }
typenum = "1"
