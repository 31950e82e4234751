[package]
name = "check_fields"
version = "0.1.0"
edition = "2021"
publish = false

[dependencies]
indexmap = { version = "2", features = ["serde"] }
inventory = "0.3"
regex = "1"
serde = { version = "1", features = ["derive"] }
string_cache = "0.8"
typetag = "0.2"
