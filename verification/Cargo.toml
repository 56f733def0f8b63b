[package]
name = "pokepalette"
version = "0.1.0"
edition = "2021"
publish = false

[dependencies]
anyhow = "1"
bincode = { version = "2", features = ["serde"] }
clap = { version = "4", features = ["derive"] }
color-thief = "*"
delta_e = "*"
homedir = "*"
image = { version = "*", default-features = false, features = ["png", "jpeg"] }
indicatif = "*"
lab = "*"
rand = "0.8"
regex = "1"
reqwest = "*"
serde = { version = "1", features = ["derive"] }
serde_json = "1"
tokio = { version = "1", features = ["macros", "rt-multi-thread", "time"] }
wallpaper = "*"
