[package]
name = "rgo"
version = "0.1.0"
edition = "2021"
publish = false

[dependencies]
axum = "=0.7.9"
clap = { version = "=4.6.7", features = ["derive"] }
nix = { version = "=0.29.0", features = ["fs"] }
tokio = { version = "=1.54.1", features = ["rt-multi-thread", "fs", "net"] }

[dev-dependencies]
rmp-serde = "=1.3.1"
