[package]
name = "ark"
version = "0.1.0"
edition = "2021"
publish = false

[dependencies]
anyhow = "*"
chrono = "*"
clap = { version = "*", features = ["derive"] }
clap_complete = "*"
comfy-table = "*"
gray_matter = "*"
jsonschema = { version = "*", default-features = false }
regex = "*"
regex-lite = "*"
serde = { version = "*", features = ["derive"] }
serde_json = "*"
serde_yml = "*"
thiserror = "*"
