[package]
name = "ssh_quick_connect"
version = "0.1.0"
edition = "2021"
publish = false

[dependencies]
dialoguer = { version = "0.11", features = ["fuzzy-select"] }
libc = "0.2"
serde = { version = "1", features = ["derive"] }
toml = "0.8"
