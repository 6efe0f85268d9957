[package]
name = "anilist_taste"
version = "0.1.0"
edition = "2021"
publish = false

[dependencies]
serde_json = "*"
reqwest = { version = "*", default-features = false }
tokio = { version = "*", features = ["macros", "rt-multi-thread"] }
polars = { version = "*", default-features = false, features = ["csv"] }
