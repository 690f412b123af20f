[package]
name = "presence_tracker"
version = "0.1.0"
edition = "2021"
publish = false

[dependencies]
difference = "=2.0.0"
hotkey = "*"
hotwatch = "=0.5.0"
