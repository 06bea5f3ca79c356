[package]
name = "rca"
version = "0.1.0"
edition = "2021"

[dependencies]
ansi_term = "0.12"
regex = "1"
serde = { version = "1", features = ["derive"] }
serde_json = "1"
thiserror = "1"
which = "4"
