[package]
name = "fold"
version = "0.1.0"
edition = "2021"
publish = false

[dependencies]
goblin = "*"
plain = "*"
log = "*"
rustix = { version = "*", features = ["fs", "mm", "stdio"] }
zerocopy = { version = "*", features = ["derive"] }
