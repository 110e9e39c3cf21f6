[package]
name = "warpseek"
version = "0.1.0"
edition = "2021"
publish = false

[dependencies]
xxhash-rust = { version = "*", features = ["xxh3"] }
serde = { version = "*", features = ["derive"] }
serde_json = "*"
clap = { version = "*", features = ["derive"] }
notify = "*"
ignore = "*"
directories = "*"
anyhow = "*"
rayon = "*"
