[package]
name = "bynar"
version = "0.1.0"
edition = "2021"
publish = false

[dependencies]
chrono = "0.4"
postgres = "0.19"
r2d2 = "0.8"
r2d2_postgres = "0.18"
zmq = "0.10"
serde = { version = "1", features = ["derive"] }
serde_json = "1"
hashicorp_vault = "*"
