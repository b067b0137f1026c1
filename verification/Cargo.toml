[package]
name = "fsindex"
version = "0.1.0"
edition = "2021"
publish = false

[dependencies]
zstd = "=0.14.0"
fuzzy-matcher = "=0.3.7"
lru = { version = "=0.18.5", default-features = false }
walkdir = "=2.5.0"
notify = "=8.2.0"
sysinfo = "=0.39.6"
dirs = "=7.0.0"
