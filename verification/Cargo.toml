[package]
name = "midi_practice"
version = "0.1.0"
edition = "2021"
publish = false

[dependencies]
midir = "*"
midly = { version = "0.5", default-features = false, features = ["alloc", "std"] }
