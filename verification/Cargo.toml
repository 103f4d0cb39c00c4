[package]
name = "mdbook_bib"
version = "0.1.0"
edition = "2021"
publish = false

[dependencies]
anyhow = "=1.0.104"
handlebars = "=6.4.4"
mdbook = { version = "=0.4.52", default-features = false }
serde_json = "=1.0.154"
toml = "=0.5.11"
ureq = "2"
