[package]
name = "fttq"
version = "0.1.0"
edition = "2021"
publish = false

[dependencies]
capstone = "*"
env_logger = "*"
goblin = "*"
log = "*"
ndarray = "*"
rustfft = "*"
serde = { version = "*", features = ["derive"] }
