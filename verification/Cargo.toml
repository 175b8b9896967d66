[package]
name = "frontmatter_preprocessor"
version = "0.1.0"
edition = "2021"
publish = false

[dependencies]
pulldown-cmark = "=0.13.4"
pulldown-cmark-to-cmark = "=23.0.0"
mdbook = { version = "=0.4.52", default-features = false }
semver = "=1.0.28"
serde_json = "=1.0.151"
toml = "=0.5.11"
