[package]
name = "safe_package"
version = "0.1.0"
edition = "2021"
publish = false

[dependencies]
clap = { version = "4", features = ["derive"] }
libmount = "0.1"
nix = { version = "0.29", features = ["fs", "mount", "process", "user"] }
serde = { version = "1", features = ["derive"] }
serde_json = "1"

[dev-dependencies]
regex = "1"
