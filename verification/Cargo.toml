[package]
name = "drawio_exporter"
version = "0.1.0"
edition = "2021"
publish = false

[dependencies]
anyhow = "=1.0.104"
base64 = "=0.13.1"
clap = { version = "=4.6.7", features = ["cargo"] }
flate2 = "=1.1.10"
git2 = { version = "=0.21.0", default-features = false }
ignore = "=0.4.33"
predicates = "=2.1.5"
regex = "=1.13.1"
relative-path = "=1.9.3"
urlencoding = "=2.1.3"
xml-rs = "=0.8.29"
