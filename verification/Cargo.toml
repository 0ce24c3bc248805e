[package]
name = "observatory"
version = "0.1.0"
edition = "2021"
publish = false

[dependencies]
petgraph = "*"
serde = { version = "*", features = ["derive"] }
serde_yaml = "*"
serde_repr = "*"
actix-web = "*"
