[package]
name = "life_grid"
version = "0.1.0"
edition = "2021"
publish = false

[dependencies]
anyhow = "1"
clap = { version = "4", features = ["derive"] }
num_cpus = "1"
pancurses = "0.17"
rayon = "1"
scopeguard = "1"

[dev-dependencies]
itertools = "*"
