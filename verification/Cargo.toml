[package]
name = "markdoc"
version = "0.1.0"
edition = "2021"
publish = false

[dependencies]
anyhow = "=1.0.104"
clap = { version = "=4.6.7", features = ["derive"] }
comrak = "=0.44.0"
serde = { version = "=1.0.229", features = ["derive"] }
serde_yaml = "=0.9.34"
slug = "=0.1.6"
which = "=8.0.6"
