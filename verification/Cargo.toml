[package]
name = "vortex_mod_gallery"
version = "1.1.0"
edition = "2021"
publish = false

[dependencies]
serde = { version = "1", features = ["derive"] }
serde_json = "1"
thiserror = "*"
extism-pdk = "*"

[dev-dependencies]
regex = "1"
