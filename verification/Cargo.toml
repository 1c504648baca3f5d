[package]
name = "mango"
version = "0.1.0"
edition = "2021"
publish = false

[dependencies]
chrono = "0.4"
uuid = { version = "1", features = ["v4"] }
clap = { version = "4", features = ["derive"] }
comfy-table = "7"
rusqlite = { version = "0.31", features = ["bundled"] }
