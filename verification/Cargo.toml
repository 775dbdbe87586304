[package]
name = "engine_core"
version = "0.1.0"
edition = "2021"
publish = false

[dependencies]
log = "=0.4.34"
quaint = { version = "=0.1.13", features = ["sqlite", "postgresql", "mysql"] }
# Used by no code of this crate: quaint's postgresql feature does not build
# against later versions of rust_decimal, so the version is held here.
rust_decimal = "=1.1.0"
serde = { version = "=1.0.229", features = ["derive"] }
serde_json = "=1.0.154"
