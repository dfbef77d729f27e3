[package]
name = "lexi"
version = "0.1.0"
edition = "2021"
publish = false

[dependencies]
anyhow = "=1.0.104"
clap = { version = "=4.6.7", features = ["derive"] }
html5ever = "=0.39.0"
markup5ever_rcdom = "=0.39.0+unofficial"
rusqlite = "=0.41.1"
serde = { version = "=1.0.229", features = ["derive"] }
serde_json = "=1.0.154"
terminal_size = "=0.4.4"
textwrap = "=0.16.4"

[dev-dependencies]
tempfile = "=3.27.0"
