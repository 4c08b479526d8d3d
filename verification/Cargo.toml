[package]
name = "editor_core"
version = "0.1.0"
edition = "2021"
publish = false

[dependencies]
ammonia = "=4.2.4"
anyhow = "=1.0.104"
comrak = { version = "=0.44.0", default-features = false }
fontdb = "=0.24.0"
grep-regex = "=0.1.14"
grep-searcher = "=0.1.17"
ignore = "=0.4.33"
num_cpus = "=1.17.0"
serde = { version = "=1.0.229", features = ["derive"] }
typst = "=0.15.1"
typst-assets = { version = "=0.15.1", features = ["fonts"] }
typst-layout = "=0.15.1"
typst-pdf = "=0.15.1"
typst-svg = "=0.15.1"
