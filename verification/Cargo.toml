[package]
name = "cargo_crap"
version = "0.4.3"
edition = "2021"
publish = false

[dependencies]
anyhow = "1"
clap = { version = "4", features = ["derive"] }
comfy-table = "7"
globset = "0.4"
indicatif = "0.17"
owo-colors = "4"
quote = "1"
rayon = "1"
serde = { version = "1", features = ["derive"] }
serde_json = "1"
syn = { version = "2", features = ["full", "visit", "extra-traits"] }
toml = "0.8"
