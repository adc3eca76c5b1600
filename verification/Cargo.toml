[package]
name = "modtree"
version = "0.1.0"
edition = "2021"
publish = false

[dependencies]
log = "*"
octocrab = "=0.47.1"
reqwest = "=0.13.5"
tokio = { version = "=1.54.1", features = ["macros", "rt-multi-thread"] }
