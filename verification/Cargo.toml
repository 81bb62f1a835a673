[package]
name = "puyo_screensaver"
version = "0.1.0"
edition = "2021"
publish = false

[dependencies]
rand = "0.9"
bevy_rand = "0.11"
bevy = { version = "0.16", default-features = false }
