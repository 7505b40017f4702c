[package]
name = "godot_rapier"
version = "0.1.0"
edition = "2021"
publish = false

[dependencies]
rapier3d = { version = "=0.23.1", features = ["serde-serialize", "enhanced-determinism"] }
nalgebra = "=0.33.3"
godot = "=0.2.4"
bincode = { version = "=2.0.1", features = ["serde"] }
serde = { version = "=1.0.229", features = ["derive"] }
log = "=0.4.35"
tracing = "=0.1.44"
tracing-subscriber = "=0.3.23"
cuid2 = "=0.1.6"
