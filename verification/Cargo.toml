[package]
name = "rupt"
version = "0.1.0"
edition = "2021"
publish = false

[dependencies]
clap = { version = "=4.6.7", features = ["derive"] }
dunce = "=1.0.5"
globset = "=0.4.21"
notify = "=8.2.1"
rayon = "=1.12.0"
ruff_python_ast = "=0.0.10"
ruff_python_parser = "=0.0.10"
serde = { version = "=1.0.229", features = ["derive"] }
serde_json = "=1.0.154"
toml = "=1.1.8"
walkdir = "=2.5.0"
