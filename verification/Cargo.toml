[package]
name = "cutty"
version = "0.1.0"
edition = "2021"
publish = false

[dependencies]
unicode-width = "0.2"
vte = "*"
anyhow = "1"
serde = { version = "1", features = ["derive"] }
toml = "*"
directories = "*"
portable-pty = "*"
winit = "0.30"
vello = "*"
parley = "*"
pollster = "*"
arboard = "*"
