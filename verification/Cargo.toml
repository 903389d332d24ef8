[package]
name = "coresched"
version = "0.1.0"
edition = "2021"
publish = false

[dependencies]
fd-lock = "4"
nix = { version = "0.29", features = ["fs", "process", "sched", "signal", "user"] }
regex = "1"
serde = { version = "1", features = ["derive"] }
serde_json = "1"
