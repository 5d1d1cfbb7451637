[package]
name = "open_cad"
version = "0.1.0"
edition = "2021"
publish = false

[dependencies]
dxf = { version = "*", features = ["serialize"] }
serde = { version = "*", features = ["derive"] }
serde_json = "*"
dirs = "*"
chrono = "*"
