[package]
name = "olivia"
version = "0.1.0"
edition = "2021"
publish = false

[dependencies]
futures = "*"
serde = { version = "*", features = ["derive"] }
serde_yaml = "*"
structopt = "*"
tokio = { version = "*", features = ["rt", "macros", "time"] }
