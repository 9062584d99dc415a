[package]
name = "cedar_agents"
version = "0.1.0"
edition = "2021"
publish = false

[dependencies]
cedar-policy = "*"
cedar-policy-core = "*"
serde = { version = "1", features = ["derive"] }
serde_json = "1"
linked-hash-map = "*"
smol_str = "*"
nonempty = "*"
miette = "*"
thiserror = "*"
clap = { version = "4", features = ["derive"] }
