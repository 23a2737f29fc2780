[package]
name = "miden_store"
version = "0.1.0"
edition = "2021"
publish = false

[dependencies]
miden-objects = "0.1.0"
rusqlite = { version = "0.31", features = ["bundled"] }
directories = "5"
