[package]
name = "inline_assets"
version = "0.1.0"
edition = "2021"
publish = false

[dependencies]
bevy = { version = "=0.6.1", default-features = false }
futures = "=0.3.34"
tracing-attributes = "=0.1.23"
