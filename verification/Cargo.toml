[package]
name = "revise"
version = "0.1.0"
edition = "2021"
publish = false

[dependencies]
chrono = "*"
colored = "*"
dirs = "*"
fsrs = "*"
rusqlite = { version = "*", features = ["bundled"] }
structopt = "*"
