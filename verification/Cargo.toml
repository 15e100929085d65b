[package]
name = "graph_specs"
version = "0.1.0"
edition = "2021"
publish = false

[dependencies]
pulldown-cmark = { version = "=0.12.2", default-features = false }
serde = { version = "=1.0.229", features = ["derive"] }
serde_json = "=1.0.154"
walkdir = "=2.5.0"
clap = { version = "=4.6.7", features = ["derive"] }
syn = { version = "=2.0.119", features = ["full", "extra-traits"] }
quote = "=1.0.47"
proc-macro2 = { version = "=1.0.107", features = ["span-locations"] }
tree-sitter = "=0.27.1"
tree-sitter-php = "=0.25.1"

[dev-dependencies]
tempfile = "=3.27.0"
