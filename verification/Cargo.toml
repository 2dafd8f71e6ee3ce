[package]
name = "stayhydated"
version = "0.1.0"
edition = "2021"
publish = false

[dependencies]
anyhow = "=1.0.104"
cargo_metadata = "=0.23.1"
clap = { version = "=4.6.7", features = ["derive"] }
walkdir = "=2.5.0"
path-slash = "=0.2.1"
mdbook-driver = "=0.5.4"
dioxus = { version = "=0.7.10", features = ["router"] }
dioxus-free-icons = { version = "=0.10.0", features = ["lucide"] }
strum = { version = "=0.28.0", features = ["derive"] }
