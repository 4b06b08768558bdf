[package]
name = "boid_arena"
version = "0.1.0"
edition = "2021"
publish = false

[dependencies]
itertools = "=0.10.5"
bevy = { version = "=0.10.1", default-features = false }
turborand = "0.10"
