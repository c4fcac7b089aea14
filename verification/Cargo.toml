[package]
name = "game_lobby"
version = "0.1.0"
edition = "2021"
publish = false

[dependencies]
actix = "0.13"
actix-cors = "0.6"
actix-files = "0.6"
actix-web = "4"
actix-web-actors = "4"
chrono = "0.4"
diesel = { version = "2", features = ["sqlite", "r2d2"] }
rand = "0.8"
serde = { version = "1", features = ["derive"] }
serde_json = "1"
uuid = { version = "1", features = ["v4", "serde"] }
