[package]
name = "xremap"
version = "0.1.0"
edition = "2021"
publish = false

[dependencies]
evdev = "*"
nix = { version = "*", features = ["time"] }
