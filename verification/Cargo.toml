[package]
name = "gazpacho"
version = "0.1.0"
edition = "2021"
publish = false

[dependencies]
regex = "=1.13.1"
rusqlite = { version = "=0.40.2", features = ["bundled"] }
ssh2 = "=0.9.6"
zstd = { version = "=0.14.0", features = ["zstdmt"] }
ctrlc = "=3.5.2"
