[package]
name = "sitrep"
version = "0.1.0"
edition = "2021"
publish = false

[dependencies]
html5ever = "*"
itertools = "*"
lopdf = "*"
regex = "*"
reqwest = "*"
serde_json = "*"
tokio = { version = "*", features = ["macros", "rt-multi-thread"] }
