[package]
name = "retropixel"
version = "0.1.0"
edition = "2021"
publish = false

[dependencies]
image = "=0.25.10"
palette = "=0.7.7"
itertools = "=0.15.0"
clap = { version = "=4.6.7", features = ["derive"] }
rayon = "=1.12.0"
anyhow = "=1.0.104"
