[package]
name = "grubgen"
version = "0.1.0"
edition = "2021"
publish = false

[dependencies]
roxmltree = "*"
serde_json = "*"
time = "*"
anyhow = "*"
nix = { version = "*", features = ["fs"] }
tempfile = "*"
walkdir = "*"
