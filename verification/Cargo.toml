[package]
name = "ra2_shp"
version = "0.1.0"
edition = "2021"
publish = false

[dependencies]
byteorder = "1"
image = { version = "0.25", default-features = false }
bevy = { version = "0.16", default-features = false, features = ["bevy_sprite"] }
