[package]
name = "bevy_replicon_visible_sets"
version = "0.0.1"
edition = "2021"
publish = false

[dependencies]
bevy = { version = "0.19", default-features = false }
bevy_replicon = "0.41"
