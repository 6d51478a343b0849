[package]
name = "typegraph"
version = "0.1.0"
edition = "2021"
publish = false

[dependencies]
serde-json-schema = "*"
Inflector = "*"
serde_json = { version = "*", features = ["preserve_order"] }
clap = { version = "*", features = ["derive"] }
