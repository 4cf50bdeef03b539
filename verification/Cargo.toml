[package]
name = "dependable_core"
version = "0.1.0"
edition = "2021"
publish = false

[dependencies]
regex = "1"
roxmltree = "0.20"
semver = "1"
serde = { version = "1", features = ["derive"] }
thiserror = "2"
toml_edit = "0.22"
