[package]
name = "ifttt_lint"
version = "0.5.0"
edition = "2021"
publish = false

[dependencies]
regex = "1"
globset = "0.4"
patchkit = "*"
anyhow = "1"
clap = { version = "4", features = ["derive"] }
serde = { version = "1", features = ["derive"] }
serde_json = "1"
rayon = "1"
aho-corasick = "1"

[dev-dependencies]
unindent = "0.2"
tempfile = "3"
