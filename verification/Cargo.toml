[package]
name = "midi_scheduler"
version = "0.1.0"
edition = "2021"
publish = false

[dependencies]
midly = { version = "0.5", default-features = false, features = ["alloc", "std"] }
anyhow = "1"
