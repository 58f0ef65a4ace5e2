[package]
name = "essence_wars"
version = "0.1.0"
edition = "2021"
publish = false

[dependencies]
arrayvec = "=0.7.8"
serde = { version = "=1.0.229", features = ["derive"] }
serde_yaml = "0.9.34"
thiserror = "=2.0.21"
serde_json = "1"
chrono = { version = "0.4", default-features = false, features = ["clock", "std"] }
log = "0.4"
