[package]
name = "asynk_strim"
version = "0.1.0"
edition = "2021"
publish = false

[dependencies]
futures-core = { version = "0.3", default-features = false }
pin-project-lite = "0.2"
