[package]
name = "polysynth"
version = "0.1.0"
edition = "2021"
publish = false

[dependencies]
cpal = "=0.13.5"
fundsp = "=0.9.0"
lazy_static = "=1.5.1"
midi-control = { version = "=0.2.3", default-features = false }
midir = "=0.7.0"
modulator = "=0.4.0"
