[package]
name = "dprint_plugin_toml"
version = "0.1.0"
edition = "2021"
publish = false

[dependencies]
dprint-core = { version = "*", features = ["formatting"] }
taplo = "*"
serde = { version = "*", features = ["derive"] }
