[package]
name = "lobby_core"
version = "0.1.0"
edition = "2021"
publish = false

[dependencies]
rand = "0.8"
base64 = "0.22"
actix = "0.13"
actix-web = "4"
actix-web-actors = "4"
actix-files = "0.6"

[dev-dependencies]
serde_json = "1"
