[package]
name = "jreader"
version = "0.1.0"
edition = "2021"
publish = false

[dependencies]
rusqlite = { version = "*", features = ["bundled"] }
serde_json = "*"
zip = { version = "*", default-features = false, features = ["deflate"] }
unicode-normalization = "*"
wana_kana = "*"
serde = { version = "*", features = ["derive"] }
vibrato = "*"
zstd = "*"

[dev-dependencies]
tempfile = "*"
