[package]
name = "openwarrant"
version = "0.1.0"
edition = "2021"
publish = false

[dependencies]
sha2 = "*"
serde = { version = "*", features = ["derive"] }
serde_json = "*"
serde_jcs = "*"
toml = "*"
camino = "*"
clap = { version = "*", features = ["derive"] }
rustix = { version = "*", features = ["process", "fs"] }
