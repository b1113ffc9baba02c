[package]
name = "pokeget"
version = "0.1.0"
edition = "2021"
publish = false

[dependencies]
bimap = "*"
clap = { version = "4", features = ["derive"] }
image = { version = "*", default-features = false, features = ["png"] }
Inflector = "*"
rand = "0.8"
showie = "*"
