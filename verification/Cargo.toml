[package]
name = "tiller"
version = "0.1.0"
edition = "2021"
publish = false

[dependencies]
anyhow = "*"
clap = { version = "*", features = ["derive"] }
comrak = "*"
gray_matter = "*"
handlebars = "*"
rss = "*"
serde = { version = "*", features = ["derive"] }
slug = "*"
syntect = "*"
toml = "*"
