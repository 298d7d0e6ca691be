[package]
name = "parachains_router"
version = "0.1.0"
edition = "2021"
publish = false

[dependencies]
parity-scale-codec = { version = "3.7", features = ["derive"] }
frame-support = "49.0.1"
frame-system = "49.0.0"
sp-std = "14.0.0"
