[package]
name = "cliphoard"
version = "0.1.0"
edition = "2021"
publish = false

[dependencies]
anyhow = "1"
arboard = { version = "3", default-features = false }
clap = { version = "4", features = ["derive"] }
directories = "*"
enigo = "*"
font-kit = "*"
sdl2 = { version = "0.37", features = ["ttf"] }
serde = { version = "1", features = ["derive"] }
serde_json = "1"
toml = "*"
uuid = { version = "1", features = ["v4"] }
