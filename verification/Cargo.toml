[package]
name = "wikid"
version = "0.1.0"
edition = "2021"
publish = false

[dependencies]
chrono = "0.4"
clap = { version = "4", features = ["derive"] }
git2 = { version = "*", default-features = false }
num-traits = "0.2"
open = "*"
serde = { version = "1", features = ["derive"] }
serde_json = "1"
