[package]
name = "duck_pinyin"
version = "0.1.0"
edition = "2021"
publish = false

[dependencies]
duckdb = { version = "=1.20000.1", default-features = false, features = ["loadable-extension"] }
