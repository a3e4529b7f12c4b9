[package]
name = "bevy_mapengine"
version = "0.1.0"
edition = "2021"
publish = false

[dependencies]
bevy = { version = "=0.6.1", default-features = false, features = ["render"] }
darling = "=0.13.4"
