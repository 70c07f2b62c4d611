[package]
name = "rustenum"
version = "0.1.0"
edition = "2021"
publish = false

[dependencies]
colored = "2"
futures = "0.3"
indicatif = "0.17"
reqwest = { version = "0.11", default-features = false }
tokio = { version = "1", features = ["macros", "rt-multi-thread"] }
