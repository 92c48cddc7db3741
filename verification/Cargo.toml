[package]
name = "story_wiki"
version = "0.1.0"
edition = "2021"
publish = false

[dependencies]
pulldown-cmark = { version = "0.9", default-features = false }
quick-xml = "0.22"
convert_case = "0.6"
serde = { version = "1", features = ["derive"] }
toml = "0.5"
