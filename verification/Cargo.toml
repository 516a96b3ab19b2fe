[package]
name = "detector"
version = "0.1.0"
edition = "2021"
publish = false

[dependencies]
once_cell = "1"
parking_lot = "0.12"
pin-project-lite = "0.2"
quote = "1"
syn = { version = "2", features = ["full", "visit-mut"] }
tokio = { version = "1", features = ["macros", "rt", "rt-multi-thread", "sync", "time"] }
