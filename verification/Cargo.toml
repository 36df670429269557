[package]
name = "mdbook-mermaid-ssr"
version = "0.1.0"
edition = "2021"
publish = false

[dependencies]
anyhow = "=1.0.104"
clap = { version = "=4.6.7", features = ["derive"] }
env_logger = "=0.11.11"
escape_string = "=0.1.2"
fxhash = "=0.2.1"
headless_chrome = "=1.0.21"
humantime = "=2.4.0"
log = "=0.4.34"
mdbook-preprocessor = "=0.5.4"
pulldown-cmark = { version = "=0.13.5", default-features = false }
serde = { version = "=1.0.229", features = ["derive"] }
serde_json = "=1.0.154"
unescape = "=0.1.0"
