[package]
name = "mewah_core"
version = "0.1.0"
edition = "2021"
publish = false

[dependencies]
anyhow = "1"
bincode = "1"
fxhash = "0.2"
serde = { version = "1", features = ["derive"] }
